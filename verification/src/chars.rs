//! Character-level predicates and transforms used by the parser and the
//! slug generator. Everything here is ASCII-oriented: the record format's
//! free text may hold arbitrary Unicode, but trimming, casing and slug
//! construction only ever act on ASCII characters.

use vstd::prelude::*;

verus! {

/// An ASCII character: code point below 128.
pub open spec fn is_ascii_char(c: char) -> bool {
    (c as u32) < 128
}

/// The ASCII whitespace characters: space, tab, line feed, form feed,
/// carriage return.
pub open spec fn is_ascii_ws(c: char) -> bool {
    c == ' ' || c == '\t' || c == '\n' || c == '\u{c}' || c == '\r'
}

/// The Unicode White_Space characters, the set general text trimming
/// removes: the ASCII ones (tab through carriage return, space), next
/// line, no-break space, ogham space mark, the en-quad through hair
/// space range, line and paragraph separators, narrow no-break space,
/// medium mathematical space, and ideographic space.
pub open spec fn is_white_space(c: char) -> bool {
    (9 <= (c as u32) && (c as u32) <= 13) || c == ' ' || c == '\u{85}' || c == '\u{a0}'
    || c == '\u{1680}'
    || (0x2000 <= (c as u32) && (c as u32) <= 0x200a)
    || c == '\u{2028}' || c == '\u{2029}' || c == '\u{202f}' || c == '\u{205f}'
    || c == '\u{3000}'
}

pub fn white_space(c: char) -> (r: bool)
    ensures
        r == is_white_space(c),
{
    let u = c as u32;
    (9 <= u && u <= 13) || c == ' ' || c == '\u{85}' || c == '\u{a0}' || c == '\u{1680}'
    || (0x2000 <= u && u <= 0x200a)
    || c == '\u{2028}' || c == '\u{2029}' || c == '\u{202f}' || c == '\u{205f}'
    || c == '\u{3000}'
}

/// An ASCII decimal digit.
pub open spec fn is_ascii_digit(c: char) -> bool {
    ('0' as u32) <= (c as u32) && (c as u32) <= ('9' as u32)
}

/// An ASCII letter or digit.
pub open spec fn is_ascii_alnum(c: char) -> bool {
    is_ascii_digit(c)
    || (('a' as u32) <= (c as u32) && (c as u32) <= ('z' as u32))
    || (('A' as u32) <= (c as u32) && (c as u32) <= ('Z' as u32))
}

/// ASCII lowercasing: uppercase letters move down by 32, all else is kept.
pub open spec fn to_ascii_lower(c: char) -> char {
    if ('A' as u32) <= (c as u32) && (c as u32) <= ('Z' as u32) {
        ((c as u32) + 32) as char
    } else {
        c
    }
}

pub fn ascii_char(c: char) -> (r: bool)
    ensures
        r == is_ascii_char(c),
{
    (c as u32) < 128
}

pub fn ascii_ws(c: char) -> (r: bool)
    ensures
        r == is_ascii_ws(c),
{
    c == ' ' || c == '\t' || c == '\n' || c == '\u{c}' || c == '\r'
}

pub fn ascii_digit(c: char) -> (r: bool)
    ensures
        r == is_ascii_digit(c),
{
    let u = c as u32;
    ('0' as u32) <= u && u <= ('9' as u32)
}

pub fn ascii_alnum(c: char) -> (r: bool)
    ensures
        r == is_ascii_alnum(c),
{
    let u = c as u32;
    (('0' as u32) <= u && u <= ('9' as u32))
    || (('a' as u32) <= u && u <= ('z' as u32))
    || (('A' as u32) <= u && u <= ('Z' as u32))
}

pub fn ascii_lower(c: char) -> (r: char)
    ensures
        r == to_ascii_lower(c),
{
    let u = c as u32;
    if ('A' as u32) <= u && u <= ('Z' as u32) {
        proof {
            vstd::utf8::char_is_scalar(c);
        }
        ((c as u8) + 32) as char
    } else {
        c
    }
}

/// The value of an ASCII digit character.
pub open spec fn digit_val(c: char) -> int {
    (c as u32) - ('0' as u32)
}

pub fn digit_value(c: char) -> (r: u32)
    requires
        is_ascii_digit(c),
    ensures
        r == digit_val(c),
        r <= 9,
{
    (c as u32) - ('0' as u32)
}

/// The ASCII digit character for a value below ten.
pub open spec fn digit_char(d: int) -> char {
    (('0' as u32) + d) as char
}

pub fn char_of_digit(d: u32) -> (r: char)
    requires
        d <= 9,
    ensures
        r == digit_char(d as int),
        is_ascii_digit(r),
        digit_val(r) == d,
{
    let r = (('0' as u8) + (d as u8)) as char;
    proof {
        vstd::utf8::char_u32_cast(r, r as u32);
    }
    r
}

} // verus!
