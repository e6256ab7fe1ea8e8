//! Code point classes and the look-ahead checks of the lexer, on text.

use vstd::prelude::*;

verus! {

/// A digit: `0` to `9`.
pub open spec fn spec_is_digit(c: char) -> bool {
    '0' <= c <= '9'
}

/// A hex digit: a digit, or a letter from `a` to `f` in either case.
pub open spec fn spec_is_hex_digit(c: char) -> bool {
    spec_is_digit(c) || 'a' <= c <= 'f' || 'A' <= c <= 'F'
}

/// A letter: `a` to `z` in either case.
pub open spec fn spec_is_letter(c: char) -> bool {
    'a' <= c <= 'z' || 'A' <= c <= 'Z'
}

/// A code point outside ASCII: U+0080 or above.
pub open spec fn spec_is_non_ascii(c: char) -> bool {
    c as u32 >= 0x80
}

/// A code point that may start a name: a letter, a non-ASCII code point or `_`.
pub open spec fn spec_is_name_start(c: char) -> bool {
    spec_is_letter(c) || spec_is_non_ascii(c) || c == '_'
}

/// A code point that may continue a name: a name start, a digit or `-`.
pub open spec fn spec_is_name(c: char) -> bool {
    spec_is_name_start(c) || spec_is_digit(c) || c == '-'
}

/// A code point with the Unicode property `White_Space`.
pub open spec fn spec_is_whitespace(c: char) -> bool {
    let v = c as u32;
    ||| 0x09 <= v <= 0x0D
    ||| v == 0x20
    ||| v == 0x85
    ||| v == 0xA0
    ||| v == 0x1680
    ||| 0x2000 <= v <= 0x200A
    ||| v == 0x2028
    ||| v == 0x2029
    ||| v == 0x202F
    ||| v == 0x205F
    ||| v == 0x3000
}

/// The text starts with a valid escape: a backslash that no newline follows.
/// A backslash that ends the text counts.
pub open spec fn spec_is_valid_escape(w: Seq<char>) -> bool {
    w.len() >= 1 && w[0] == '\\' && !(w.len() >= 2 && w[1] == '\n')
}

/// The text starts the way an identifier does:
/// with a name start; with `-` and then a name start, a second `-` or a valid
/// escape; or with a valid escape.
pub open spec fn spec_would_start_identifier(w: Seq<char>) -> bool {
    if w.len() == 0 {
        false
    } else if w[0] == '-' {
        (w.len() >= 2 && (spec_is_name_start(w[1]) || w[1] == '-')) || spec_is_valid_escape(
            w.subrange(1, w.len() as int),
        )
    } else if spec_is_name_start(w[0]) {
        true
    } else {
        spec_is_valid_escape(w)
    }
}

/// `nom::character::is_digit`: the byte is an ASCII digit, `0x30` to `0x39`.
#[verifier::external_body]
fn byte_is_digit(b: u8) -> (r: bool)
    ensures
        r == (0x30 <= b <= 0x39),
{
    nom::character::is_digit(b)
}

/// `nom::character::is_hex_digit`: the byte is an ASCII digit or one of the
/// letters `A` to `F`, `a` to `f`.
#[verifier::external_body]
fn byte_is_hex_digit(b: u8) -> (r: bool)
    ensures
        r == (0x30 <= b <= 0x39 || 0x41 <= b <= 0x46 || 0x61 <= b <= 0x66),
{
    nom::character::is_hex_digit(b)
}

/// `nom::character::is_alphabetic`: the byte is an ASCII letter, `A` to `Z` or
/// `a` to `z`.
#[verifier::external_body]
fn byte_is_alphabetic(b: u8) -> (r: bool)
    ensures
        r == (0x41 <= b <= 0x5A || 0x61 <= b <= 0x7A),
{
    nom::character::is_alphabetic(b)
}

#[verifier::when_used_as_spec(spec_is_digit)]
pub fn is_digit(c: char) -> (r: bool)
    ensures
        r == spec_is_digit(c),
{
    let v: u32 = c as u32;
    v < 0x80 && byte_is_digit(v as u8)
}

#[verifier::when_used_as_spec(spec_is_hex_digit)]
pub fn is_hex_digit(c: char) -> (r: bool)
    ensures
        r == spec_is_hex_digit(c),
{
    let v: u32 = c as u32;
    v < 0x80 && byte_is_hex_digit(v as u8)
}

#[verifier::when_used_as_spec(spec_is_letter)]
pub fn is_letter(c: char) -> (r: bool)
    ensures
        r == spec_is_letter(c),
{
    let v: u32 = c as u32;
    v < 0x80 && byte_is_alphabetic(v as u8)
}

#[verifier::when_used_as_spec(spec_is_non_ascii)]
pub fn is_non_ascii(c: char) -> (r: bool)
    ensures
        r == spec_is_non_ascii(c),
{
    c as u32 >= 0x80
}

#[verifier::when_used_as_spec(spec_is_name_start)]
pub fn is_name_start(c: char) -> (r: bool)
    ensures
        r == spec_is_name_start(c),
{
    is_letter(c) || is_non_ascii(c) || c == '_'
}

#[verifier::when_used_as_spec(spec_is_name)]
pub fn is_name(c: char) -> (r: bool)
    ensures
        r == spec_is_name(c),
{
    is_name_start(c) || is_digit(c) || c == '-'
}

#[verifier::when_used_as_spec(spec_is_whitespace)]
pub fn is_whitespace(c: char) -> (r: bool)
    ensures
        r == spec_is_whitespace(c),
{
    let v: u32 = c as u32;
    (0x09 <= v && v <= 0x0D) || v == 0x20 || v == 0x85 || v == 0xA0 || v == 0x1680 || (0x2000 <= v
        && v <= 0x200A) || v == 0x2028 || v == 0x2029 || v == 0x202F || v == 0x205F || v
        == 0x3000
}

/// Whether `s` starts with a valid escape.
pub fn is_valid_escape(s: &str) -> (r: bool)
    ensures
        r == spec_is_valid_escape(s@),
{
    let mut chars = s.chars();
    let c1 = chars.next();
    let c2 = chars.next();
    match c1 {
        Some(a) => a == '\\' && match c2 {
            Some(b) => b != '\n',
            None => true,
        },
        None => false,
    }
}

/// Whether `s` starts the way an identifier does.
pub fn would_start_identifier(s: &str) -> (r: bool)
    ensures
        r == spec_would_start_identifier(s@),
{
    let mut chars = s.chars();
    let c1 = chars.next();
    let c2 = chars.next();
    let c3 = chars.next();
    proof {
        if s@.len() >= 1 {
            let w = s@.subrange(1, s@.len() as int);
            assert(w.len() == s@.len() - 1);
            if s@.len() >= 2 {
                assert(w[0] == s@[1]);
            }
            if s@.len() >= 3 {
                assert(w[1] == s@[2]);
            }
        }
    }
    match c1 {
        None => false,
        Some(a) => if a == '-' {
            match c2 {
                None => false,
                Some(b) => is_name_start(b) || b == '-' || (b == '\\' && match c3 {
                    Some(c) => c != '\n',
                    None => true,
                }),
            }
        } else if is_name_start(a) {
            true
        } else {
            a == '\\' && match c2 {
                Some(b) => b != '\n',
                None => true,
            }
        },
    }
}

/// Whether the text of `chars` from `i` on starts with a valid escape.
pub fn valid_escape_at(chars: &[char], i: usize) -> (r: bool)
    requires
        i <= chars.len(),
    ensures
        r == spec_is_valid_escape(chars@.subrange(i as int, chars.len() as int)),
{
    let n = chars.len();
    proof {
        let w = chars@.subrange(i as int, n as int);
        if i < n {
            assert(w[0] == chars@[i as int]);
        }
        if i + 1 < n {
            assert(w[1] == chars@[i + 1]);
        }
    }
    i < n && chars[i] == '\\' && !(i + 1 < n && chars[i + 1] == '\n')
}

/// Whether the text of `chars` from `i` on starts the way an identifier does.
pub fn identifier_starts_at(chars: &[char], i: usize) -> (r: bool)
    requires
        i <= chars.len(),
    ensures
        r == spec_would_start_identifier(chars@.subrange(i as int, chars.len() as int)),
{
    let n = chars.len();
    proof {
        let w = chars@.subrange(i as int, n as int);
        if i < n {
            assert(w[0] == chars@[i as int]);
            assert(w.subrange(1, w.len() as int) =~= chars@.subrange(i + 1, n as int));
        }
        if i + 1 < n {
            assert(w[1] == chars@[i + 1]);
        }
    }
    if i >= n {
        false
    } else if chars[i] == '-' {
        (i + 1 < n && (is_name_start(chars[i + 1]) || chars[i + 1] == '-')) || valid_escape_at(
            chars,
            i + 1,
        )
    } else if is_name_start(chars[i]) {
        true
    } else {
        valid_escape_at(chars, i)
    }
}

} // verus!
