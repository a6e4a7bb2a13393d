//! Character classes and case mapping for the Latin script as it appears in
//! French/English academic timetables: ASCII plus the Latin-1 letter ranges.
//! All classifications are stated as spec functions over code points.

use vstd::prelude::*;

verus! {

/// Whitespace: ASCII blank characters and the no-break space.
pub open spec fn is_space(c: char) -> bool {
    c == ' ' || c == '\t' || c == '\n' || c == '\r' || c == '\u{b}' || c == '\u{c}'
        || c == '\u{a0}'
}

pub fn space_char(c: char) -> (r: bool)
    ensures
        r == is_space(c),
{
    c == ' ' || c == '\t' || c == '\n' || c == '\r' || c == '\u{b}' || c == '\u{c}'
        || c == '\u{a0}'
}

/// A space or tab, as found after a folded line break.
pub open spec fn is_blank(c: char) -> bool {
    c == ' ' || c == '\t'
}

pub fn blank_char(c: char) -> (r: bool)
    ensures
        r == is_blank(c),
{
    c == ' ' || c == '\t'
}

pub open spec fn is_digit(c: char) -> bool {
    '0' <= c && c <= '9'
}

pub fn digit_char(c: char) -> (r: bool)
    ensures
        r == is_digit(c),
{
    '0' <= c && c <= '9'
}

/// Uppercase letters: A-Z and the Latin-1 uppercase ranges.
pub open spec fn is_upper(c: char) -> bool {
    ('A' <= c && c <= 'Z') || ('\u{c0}' <= c && c <= '\u{d6}') || ('\u{d8}' <= c && c
        <= '\u{de}')
}

pub fn upper_char(c: char) -> (r: bool)
    ensures
        r == is_upper(c),
{
    ('A' <= c && c <= 'Z') || ('\u{c0}' <= c && c <= '\u{d6}') || ('\u{d8}' <= c && c
        <= '\u{de}')
}

/// Lowercase letters: a-z and the Latin-1 lowercase ranges.
pub open spec fn is_lower(c: char) -> bool {
    ('a' <= c && c <= 'z') || ('\u{df}' <= c && c <= '\u{f6}') || ('\u{f8}' <= c && c
        <= '\u{ff}')
}

pub fn lower_char(c: char) -> (r: bool)
    ensures
        r == is_lower(c),
{
    ('a' <= c && c <= 'z') || ('\u{df}' <= c && c <= '\u{f6}') || ('\u{f8}' <= c && c
        <= '\u{ff}')
}

pub open spec fn is_alpha(c: char) -> bool {
    is_upper(c) || is_lower(c)
}

pub fn alpha_char(c: char) -> (r: bool)
    ensures
        r == is_alpha(c),
{
    upper_char(c) || lower_char(c)
}

pub open spec fn is_alnum(c: char) -> bool {
    is_alpha(c) || is_digit(c)
}

pub fn alnum_char(c: char) -> (r: bool)
    ensures
        r == is_alnum(c),
{
    alpha_char(c) || digit_char(c)
}

/// A word character for boundary tests: alphanumeric or underscore.
pub open spec fn is_word(c: char) -> bool {
    is_alnum(c) || c == '_'
}

pub fn word_char(c: char) -> (r: bool)
    ensures
        r == is_word(c),
{
    alnum_char(c) || c == '_'
}

/// Relies on char::from_u32: every u32 that is a Unicode scalar value converts
/// to the char with that code point.
#[verifier::external_body]
fn char_of_u32(u: u32) -> (c: char)
    requires
        u < 0xD800 || (0xE000 <= u && u < 0x110000),
    ensures
        c == (u as char),
{
    char::from_u32(u).unwrap()
}

/// Lowercase mapping: A-Z and the Latin-1 uppercase letters move down by 0x20;
/// everything else is unchanged.
pub open spec fn to_lower(c: char) -> char {
    if 'A' <= c && c <= 'Z' {
        ((c as u32) + 0x20) as char
    } else if ('\u{c0}' <= c && c <= '\u{d6}') || ('\u{d8}' <= c && c <= '\u{de}') {
        ((c as u32) + 0x20) as char
    } else {
        c
    }
}

pub fn lower_of(c: char) -> (r: char)
    ensures
        r == to_lower(c),
{
    if ('A' <= c && c <= 'Z') || ('\u{c0}' <= c && c <= '\u{d6}') || ('\u{d8}' <= c && c
        <= '\u{de}') {
        char_of_u32((c as u32) + 0x20)
    } else {
        c
    }
}

/// Uppercase mapping: a-z and the Latin-1 lowercase letters (except the sharp s
/// and the y with diaeresis, which have no Latin-1 uppercase) move up by 0x20.
pub open spec fn to_upper(c: char) -> char {
    if 'a' <= c && c <= 'z' {
        ((c as u32) - 0x20) as char
    } else if ('\u{e0}' <= c && c <= '\u{f6}') || ('\u{f8}' <= c && c <= '\u{fe}') {
        ((c as u32) - 0x20) as char
    } else {
        c
    }
}

pub fn upper_of(c: char) -> (r: char)
    ensures
        r == to_upper(c),
{
    if ('a' <= c && c <= 'z') || ('\u{e0}' <= c && c <= '\u{f6}') || ('\u{f8}' <= c && c
        <= '\u{fe}') {
        char_of_u32((c as u32) - 0x20)
    } else {
        c
    }
}

/// ASCII-only lowercase mapping, for comparisons that must leave accented
/// letters untouched.
pub open spec fn to_ascii_lower(c: char) -> char {
    if 'A' <= c && c <= 'Z' {
        ((c as u32) + 0x20) as char
    } else {
        c
    }
}

pub fn ascii_lower_of(c: char) -> (r: char)
    ensures
        r == to_ascii_lower(c),
{
    if 'A' <= c && c <= 'Z' {
        char_of_u32((c as u32) + 0x20)
    } else {
        c
    }
}

} // verus!
