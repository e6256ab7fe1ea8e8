//! Reading single tokens off the source text.

use super::helpers::{identifier_starts_at, is_digit, is_name, is_whitespace};
use super::rules::{
    block_comment_body_end, digit_at, exponent_at, lemma_run_end, mantissa_at, number_at, run_end,
    sign_len, token_at, CharClass,
};
use super::source::{byte_offset, SourceText};
use super::{LexError, Number, Token};
use vstd::prelude::*;

verus! {

/// Where the longest run of `class` that starts at `start` ends.
pub fn scan_run(src: &SourceText, start: usize, class: CharClass) -> (end: usize)
    requires
        start <= src@.len(),
    ensures
        end == run_end(src@, start as int, class),
        start <= end <= src@.len(),
{
    let n = src.len();
    let mut i = start;
    while i < n && class.holds(src.get(i))
        invariant
            start <= i <= n,
            n == src@.len(),
            run_end(src@, start as int, class) == run_end(src@, i as int, class),
        decreases n - i,
    {
        i += 1;
    }
    i
}

/// Where the body of the block comment ends whose body starts at `start`.
pub fn scan_block_comment_body(src: &SourceText, start: usize) -> (end: usize)
    requires
        start <= src@.len(),
    ensures
        end == block_comment_body_end(src@, start as int),
        start <= end <= src@.len(),
        end < src@.len() ==> end + 2 <= src@.len(),
{
    let n = src.len();
    let mut i = start;
    while i < n && !(src.get(i) == '*' && i + 1 < n && src.get(i + 1) == '/')
        invariant
            start <= i <= n,
            n == src@.len(),
            block_comment_body_end(src@, start as int) == block_comment_body_end(src@, i as int),
        decreases n - i,
    {
        i += 1;
    }
    i
}

/// Whether a sign stands at `i`.
fn sign_at(src: &SourceText, i: usize) -> (r: bool)
    ensures
        r == (sign_len(src@, i as int) == 1),
        !r == (sign_len(src@, i as int) == 0),
{
    i < src.len() && (src.get(i) == '+' || src.get(i) == '-')
}

/// Whether a digit stands at `i`.
fn is_digit_at(src: &SourceText, i: usize) -> (r: bool)
    ensures
        r == digit_at(src@, i as int),
{
    i < src.len() && is_digit(src.get(i))
}

/// The number that starts at `i`, and where it ends.
pub fn scan_number(src: &SourceText, i: usize) -> (r: Option<(Number, usize)>)
    requires
        i < src@.len(),
    ensures
        match r {
            Some((number, end)) => number_at(src@, i as int) == Some((number@, end as int)) && i
                < end <= src@.len(),
            None => number_at(src@, i as int) is None,
        },
{
    let n = src.len();
    let signed = sign_at(src, i);
    let p = if signed {
        i + 1
    } else {
        i
    };
    let negative = signed && src.get(i) == '-';
    // The integer and fractional digits.
    let int_end: usize;
    let frac_start: usize;
    let frac_end: usize;
    if is_digit_at(src, p) {
        let q = scan_run(src, p, CharClass::Digit);
        if q < n && src.get(q) == '.' && is_digit_at(src, q + 1) {
            int_end = q;
            frac_start = q + 1;
            frac_end = scan_run(src, q + 1, CharClass::Digit);
        } else {
            int_end = q;
            frac_start = q;
            frac_end = q;
        }
    } else if p < n && src.get(p) == '.' && is_digit_at(src, p + 1) {
        int_end = p;
        frac_start = p + 1;
        frac_end = scan_run(src, p + 1, CharClass::Digit);
    } else {
        return None;
    }
    assert(mantissa_at(src@, p as int) == Some((int_end as int, frac_start as int, frac_end as int)));
    proof {
        lemma_run_end(src@, p as int, CharClass::Digit);
    }
    let integer = src.text(p, int_end);
    let fraction = src.text(frac_start, frac_end);
    // The exponent.
    let r = frac_end;
    if r < n && (src.get(r) == 'e' || src.get(r) == 'E') {
        let exponent_signed = sign_at(src, r + 1);
        let d = if exponent_signed {
            r + 2
        } else {
            r + 1
        };
        if is_digit_at(src, d) {
            let end = scan_run(src, d, CharClass::Digit);
            let exponent_negative = exponent_signed && src.get(r + 1) == '-';
            let exponent = src.text(d, end);
            assert(exponent_at(src@, r as int) == Some((d as int, end as int)));
            return Some((Number { negative, integer, fraction, exponent_negative, exponent }, end));
        }
    }
    assert(exponent_at(src@, r as int) is None);
    let exponent = String::new();
    Some((Number { negative, integer, fraction, exponent_negative: false, exponent }, r))
}

/// The token that starts at `i`, and where it ends.
pub fn scan_token(src: &SourceText, i: usize) -> (r: Result<(Token, usize), LexError>)
    requires
        src.wf(),
        i < src@.len(),
    ensures
        match r {
            Ok((token, end)) => token_at(src@, i as int) == Some((token@, end as int)) && i < end
                <= src@.len(),
            Err(e) => token_at(src@, i as int) is None && e == LexError::UnterminatedString(
                byte_offset(src@, i as int) as usize,
            ),
        },
{
    let n = src.len();
    let c = src.get(i);
    if is_whitespace(c) {
        let end = scan_run(src, i, CharClass::Whitespace);
        proof {
            lemma_run_end(src@, i + 1, CharClass::Whitespace);
        }
        Ok((Token::Whitespace, end))
    } else if c == '/' && i + 1 < n && src.get(i + 1) == '/' {
        let end = scan_run(src, i + 2, CharClass::NotNewline);
        Ok((Token::Comment(src.text(i + 2, end)), end))
    } else if c == '/' && i + 1 < n && src.get(i + 1) == '*' {
        let body_end = scan_block_comment_body(src, i + 2);
        let end = if body_end < n {
            body_end + 2
        } else {
            n
        };
        Ok((Token::Comment(src.text(i + 2, body_end)), end))
    } else if identifier_starts_at(src.chars(), i) && is_name(c) {
        let end = scan_run(src, i, CharClass::Name);
        proof {
            lemma_run_end(src@, i + 1, CharClass::Name);
        }
        Ok((Token::Ident(src.text(i, end)), end))
    } else if c == '#' && i + 1 < n && is_name(src.get(i + 1)) {
        let end = scan_run(src, i + 1, CharClass::Name);
        Ok((Token::Hash(src.text(i + 1, end)), end))
    } else if c == '"' || c == '\'' {
        let close = scan_run(src, i + 1, CharClass::Not(c));
        if close < n {
            Ok((Token::String(src.text(i + 1, close)), close + 1))
        } else {
            Err(LexError::UnterminatedString(src.offset(i)))
        }
    } else {
        match scan_number(src, i) {
            Some((number, end)) => Ok((Token::Number(number), end)),
            None => Ok((Token::Symbol(c), i + 1)),
        }
    }
}

} // verus!
