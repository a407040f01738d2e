//! Character classes used by the hostname rules and by the textual formats.

use vstd::prelude::*;

verus! {

/// An ASCII letter or an ASCII digit.
pub open spec fn alnum(c: char) -> bool {
    ('a' <= c && c <= 'z') || ('A' <= c && c <= 'Z') || ('0' <= c && c <= '9')
}

/// A character that may appear in a DNS label: ASCII letter, ASCII digit or hyphen.
pub open spec fn label_char(c: char) -> bool {
    alnum(c) || c == '-'
}

/// An upper-case ASCII letter.
pub open spec fn upper(c: char) -> bool {
    'A' <= c && c <= 'Z'
}

/// The lower-case form of an ASCII letter; every other character, ASCII or not, is left
/// as it is.
pub open spec fn lower_char(c: char) -> char {
    if upper(c) {
        ((c as u8) + 32) as char
    } else {
        c
    }
}

/// The code points with the Unicode property `White_Space`.
pub open spec fn whitespace(c: char) -> bool {
    ('\u{9}' <= c && c <= '\u{d}') || c == ' ' || c == '\u{85}' || c == '\u{a0}' || c
        == '\u{1680}' || ('\u{2000}' <= c && c <= '\u{200a}') || c == '\u{2028}' || c
        == '\u{2029}' || c == '\u{202f}' || c == '\u{205f}' || c == '\u{3000}'
}

/// A hexadecimal digit in either case.
pub open spec fn hex_digit(c: char) -> bool {
    ('0' <= c && c <= '9') || ('a' <= c && c <= 'f') || ('A' <= c && c <= 'F')
}

/// The value of a hexadecimal digit, 0 to 15.
pub open spec fn hex_value(c: char) -> int
    recommends
        hex_digit(c),
{
    if '0' <= c && c <= '9' {
        (c as u8) - 48
    } else if 'a' <= c && c <= 'f' {
        (c as u8) - 87
    } else {
        (c as u8) - 55
    }
}

/// The lower-case hexadecimal digit of a value below 16.
pub open spec fn hex_char(n: int) -> char
    recommends
        0 <= n < 16,
{
    if n < 10 {
        ((n + 48) as u8) as char
    } else {
        ((n + 87) as u8) as char
    }
}

/// The decimal digit of a value below 10.
pub open spec fn digit_char(n: int) -> char
    recommends
        0 <= n < 10,
{
    ((n + 48) as u8) as char
}

pub fn is_alnum(c: char) -> (r: bool)
    ensures
        r == alnum(c),
{
    ('a' <= c && c <= 'z') || ('A' <= c && c <= 'Z') || ('0' <= c && c <= '9')
}

pub fn is_label_char(c: char) -> (r: bool)
    ensures
        r == label_char(c),
{
    is_alnum(c) || c == '-'
}

pub fn to_lower_char(c: char) -> (r: char)
    ensures
        r == lower_char(c),
{
    if 'A' <= c && c <= 'Z' {
        ((c as u8) + 32) as char
    } else {
        c
    }
}

pub fn is_whitespace(c: char) -> (r: bool)
    ensures
        r == whitespace(c),
{
    ('\u{9}' <= c && c <= '\u{d}') || c == ' ' || c == '\u{85}' || c == '\u{a0}' || c
        == '\u{1680}' || ('\u{2000}' <= c && c <= '\u{200a}') || c == '\u{2028}' || c
        == '\u{2029}' || c == '\u{202f}' || c == '\u{205f}' || c == '\u{3000}'
}

/// The value of `c` as a hexadecimal digit, or `None` where it is none.
pub fn hex_digit_value(c: char) -> (r: Option<u8>)
    ensures
        r is Some == hex_digit(c),
        r is Some ==> r->0 == hex_value(c) && r->0 < 16,
{
    if '0' <= c && c <= '9' {
        Some((c as u8) - 48)
    } else if 'a' <= c && c <= 'f' {
        Some((c as u8) - 87)
    } else if 'A' <= c && c <= 'F' {
        Some((c as u8) - 55)
    } else {
        None
    }
}

pub fn to_hex_char(n: u8) -> (r: char)
    requires
        n < 16,
    ensures
        r == hex_char(n as int),
        hex_digit(r),
        !upper(r),
        alnum(r),
        hex_value(r) == n,
{
    if n < 10 {
        (n + 48) as char
    } else {
        (n + 87) as char
    }
}

pub fn to_digit_char(n: u8) -> (r: char)
    requires
        n < 10,
    ensures
        r == digit_char(n as int),
{
    (n + 48) as char
}

} // verus!
