//! Code point classes of CSS Syntax Level 3 and its three look-ahead checks.

use vstd::prelude::*;

verus! {

/// A digit: `0` to `9`.
pub open spec fn spec_is_digit(c: char) -> bool {
    '0' <= c <= '9'
}

/// A hex digit: a digit, or a letter from `a` to `f` in either case.
pub open spec fn spec_is_hex_digit(c: char) -> bool {
    spec_is_digit(c) || 'a' <= c <= 'f' || 'A' <= c <= 'F'
}

/// Whitespace: a code point with the Unicode property `White_Space`. The
/// newline, the carriage return, the tab and the space are among them.
pub open spec fn spec_is_whitespace(c: char) -> bool {
    crate::lexer::helpers::spec_is_whitespace(c)
}

/// An uppercase letter: `A` to `Z`.
pub open spec fn spec_is_uppercase_letter(c: char) -> bool {
    'A' <= c <= 'Z'
}

/// A lowercase letter: `a` to `z`.
pub open spec fn spec_is_lowercase_letter(c: char) -> bool {
    'a' <= c <= 'z'
}

/// A letter of either case.
pub open spec fn spec_is_letter(c: char) -> bool {
    spec_is_uppercase_letter(c) || spec_is_lowercase_letter(c)
}

/// A code point outside ASCII: U+0080 or above.
pub open spec fn spec_is_non_ascii(c: char) -> bool {
    c as u32 >= 0x80
}

/// A code point that may start a name: a letter, a non-ASCII code point or `_`.
pub open spec fn spec_is_name_start(c: char) -> bool {
    spec_is_letter(c) || spec_is_non_ascii(c) || c == '_'
}

/// A code point that may continue a name: a name start, a digit or `-`.
pub open spec fn spec_is_name(c: char) -> bool {
    spec_is_name_start(c) || spec_is_digit(c) || c == '-'
}

/// Two code points form a valid escape: a backslash not followed by a newline.
pub open spec fn spec_is_valid_escape(c1: char, c2: char) -> bool {
    c1 == '\\' && c2 != '\n'
}

/// Three code points would start an identifier.
pub open spec fn spec_would_start_identifier(c1: char, c2: char, c3: char) -> bool {
    if c1 == '-' {
        spec_is_name_start(c2) || c2 == '-' || spec_is_valid_escape(c2, c3)
    } else if spec_is_name_start(c1) {
        true
    } else if c1 == '\\' {
        spec_is_valid_escape(c1, c2)
    } else {
        false
    }
}

/// Three code points would start a number.
pub open spec fn spec_would_start_number(c1: char, c2: char, c3: char) -> bool {
    if c1 == '+' || c1 == '-' {
        spec_is_digit(c2) || (c2 == '.' && spec_is_digit(c3))
    } else if c1 == '.' {
        spec_is_digit(c2)
    } else {
        spec_is_digit(c1)
    }
}

#[verifier::when_used_as_spec(spec_is_digit)]
pub fn is_digit(c: char) -> (r: bool)
    ensures
        r == spec_is_digit(c),
{
    '0' <= c && c <= '9'
}

#[verifier::when_used_as_spec(spec_is_hex_digit)]
pub fn is_hex_digit(c: char) -> (r: bool)
    ensures
        r == spec_is_hex_digit(c),
{
    is_digit(c) || ('a' <= c && c <= 'f') || ('A' <= c && c <= 'F')
}

#[verifier::when_used_as_spec(spec_is_whitespace)]
pub fn is_whitespace(c: char) -> (r: bool)
    ensures
        r == spec_is_whitespace(c),
{
    crate::lexer::helpers::is_whitespace(c)
}

#[verifier::when_used_as_spec(spec_is_uppercase_letter)]
pub fn is_uppercase_letter(c: char) -> (r: bool)
    ensures
        r == spec_is_uppercase_letter(c),
{
    'A' <= c && c <= 'Z'
}

#[verifier::when_used_as_spec(spec_is_lowercase_letter)]
pub fn is_lowercase_letter(c: char) -> (r: bool)
    ensures
        r == spec_is_lowercase_letter(c),
{
    'a' <= c && c <= 'z'
}

#[verifier::when_used_as_spec(spec_is_letter)]
pub fn is_letter(c: char) -> (r: bool)
    ensures
        r == spec_is_letter(c),
{
    is_uppercase_letter(c) || is_lowercase_letter(c)
}

#[verifier::when_used_as_spec(spec_is_non_ascii)]
pub fn is_non_ascii(c: char) -> (r: bool)
    ensures
        r == spec_is_non_ascii(c),
{
    c >= '\u{80}'
}

#[verifier::when_used_as_spec(spec_is_name_start)]
pub fn is_name_start(c: char) -> (r: bool)
    ensures
        r == spec_is_name_start(c),
{
    is_letter(c) || is_non_ascii(c) || c == '_'
}

#[verifier::when_used_as_spec(spec_is_name)]
pub fn is_name(c: char) -> (r: bool)
    ensures
        r == spec_is_name(c),
{
    is_name_start(c) || is_digit(c) || c == '-'
}

#[verifier::when_used_as_spec(spec_is_valid_escape)]
pub fn is_valid_escape(c1: char, c2: char) -> (r: bool)
    ensures
        r == spec_is_valid_escape(c1, c2),
{
    c1 == '\\' && c2 != '\n'
}

#[verifier::when_used_as_spec(spec_would_start_identifier)]
pub fn would_start_identifier(c1: char, c2: char, c3: char) -> (r: bool)
    ensures
        r == spec_would_start_identifier(c1, c2, c3),
{
    if c1 == '-' {
        is_name_start(c2) || c2 == '-' || is_valid_escape(c2, c3)
    } else if is_name_start(c1) {
        true
    } else if c1 == '\\' {
        is_valid_escape(c1, c2)
    } else {
        false
    }
}

#[verifier::when_used_as_spec(spec_would_start_number)]
pub fn would_start_number(c1: char, c2: char, c3: char) -> (r: bool)
    ensures
        r == spec_would_start_number(c1, c2, c3),
{
    if c1 == '+' || c1 == '-' {
        is_digit(c2) || (c2 == '.' && is_digit(c3))
    } else if c1 == '.' {
        is_digit(c2)
    } else {
        is_digit(c1)
    }
}

} // verus!
