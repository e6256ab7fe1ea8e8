//! The value of a numeric literal.
//!
//! A literal keeps its digits as they are written. With the sign `s`, the
//! integer digits of the value `i`, the `d` fractional digits of the value
//! `f` and the exponent of the sign `t` and the value `e`, the literal
//! stands for `s * (i + f * 10^-d) * 10^(t * e)`.

use super::helpers::{is_digit, spec_is_digit};
use super::rules::{
    digit_at, exponent_at, lemma_run_end, mantissa_at, number_at, run_end, sign_len, CharClass,
};
use super::{Number, NumberModel};
use vstd::prelude::*;

verus! {

/// The value of the digit `c`.
pub open spec fn digit_value(c: char) -> nat {
    (c as nat - '0' as nat) as nat
}

/// The number that the digits write in base ten; 0 for no digits.
pub open spec fn digits_value(digits: Seq<char>) -> nat
    decreases digits.len(),
{
    if digits.len() == 0 {
        0
    } else {
        digits_value(digits.drop_last()) * 10 + digit_value(digits.last())
    }
}

/// Whether all of `digits` are digits.
pub open spec fn all_digits(digits: Seq<char>) -> bool {
    forall|k: int| 0 <= k < digits.len() ==> spec_is_digit(#[trigger] digits[k])
}

impl NumberModel {
    /// The sign `s`: -1 or 1.
    pub open spec fn sign(self) -> int {
        if self.negative {
            -1
        } else {
            1
        }
    }

    /// The value `i` of the integer digits.
    pub open spec fn integer_value(self) -> nat {
        digits_value(self.integer)
    }

    /// The value `f` of the fractional digits.
    pub open spec fn fraction_value(self) -> nat {
        digits_value(self.fraction)
    }

    /// The exponent `t * e`.
    pub open spec fn exponent_value(self) -> int {
        if self.exponent_negative {
            -(digits_value(self.exponent) as int)
        } else {
            digits_value(self.exponent) as int
        }
    }

    /// Whether each part is made of digits, and digits stand before the
    /// point or behind it.
    pub open spec fn well_formed(self) -> bool {
        &&& all_digits(self.integer)
        &&& all_digits(self.fraction)
        &&& all_digits(self.exponent)
        &&& self.integer.len() + self.fraction.len() > 0
        &&& self.exponent_negative ==> self.exponent.len() > 0
    }
}

/// The digits of a run of digits are digits.
proof fn lemma_run_of_digits(s: Seq<char>, from: int, to: int)
    requires
        0 <= from <= to <= run_end(s, from, CharClass::Digit),
        from <= s.len(),
    ensures
        all_digits(s.subrange(from, to)),
{
    lemma_run_end(s, from, CharClass::Digit);
}

/// Every number that the lexer reads is well-formed.
pub proof fn lemma_number_well_formed(s: Seq<char>, i: int)
    requires
        0 <= i < s.len(),
    ensures
        number_at(s, i) matches Some((number, _)) ==> number.well_formed(),
{
    let p = i + sign_len(s, i);
    if p <= s.len() {
        lemma_run_end(s, p, CharClass::Digit);
        if p + 1 <= s.len() {
            lemma_run_end(s, p + 1, CharClass::Digit);
        }
    }
    match mantissa_at(s, p) {
        None => {},
        Some((q, f, r)) => {
            assert(all_digits(Seq::<char>::empty()));
            if digit_at(s, p) {
                lemma_run_of_digits(s, p, q);
                if q + 1 <= s.len() {
                    lemma_run_end(s, q + 1, CharClass::Digit);
                }
                if q + 2 <= s.len() {
                    lemma_run_end(s, q + 2, CharClass::Digit);
                }
                if f < r {
                    lemma_run_of_digits(s, q + 1, r);
                } else {
                    assert(s.subrange(f, r) =~= Seq::<char>::empty());
                }
                assert(s.subrange(p, q).len() > 0);
            } else {
                lemma_run_end(s, p + 1, CharClass::Digit);
                if p + 2 <= s.len() {
                    lemma_run_end(s, p + 2, CharClass::Digit);
                }
                lemma_run_of_digits(s, p + 1, r);
                assert(s.subrange(p, q) =~= Seq::<char>::empty());
                assert(s.subrange(f, r).len() > 0);
            }
            match exponent_at(s, r) {
                None => {},
                Some((d, e)) => {
                    lemma_run_end(s, d, CharClass::Digit);
                    if d + 1 <= s.len() {
                        lemma_run_end(s, d + 1, CharClass::Digit);
                    }
                    lemma_run_of_digits(s, d, e);
                },
            }
        },
    }
}

/// The value of digits is no less than the value of the digits without
/// those at their end.
proof fn lemma_digits_value_grows(digits: Seq<char>, n: int)
    requires
        0 <= n <= digits.len(),
    ensures
        digits_value(digits.subrange(0, n)) <= digits_value(digits),
    decreases digits.len() - n,
{
    if n < digits.len() {
        lemma_digits_value_grows(digits, n + 1);
        assert(digits.subrange(0, n + 1).drop_last() =~= digits.subrange(0, n));
    } else {
        assert(digits.subrange(0, n) =~= digits);
    }
}

/// The number that the digits `text` write, if they are digits and the
/// number fits in 32 bits.
pub fn digits_to_u32(text: &str) -> (r: Option<u32>)
    ensures
        match r {
            Some(value) => all_digits(text@) && value == digits_value(text@),
            None => !all_digits(text@) || digits_value(text@) > u32::MAX,
        },
{
    let mut value: u32 = 0;
    for c in it: text.chars()
        invariant
            it.seq() == text@,
            all_digits(text@.subrange(0, it.index() as int)),
            value == digits_value(text@.subrange(0, it.index() as int)),
    {
        let ghost k = it.index() as int;
        proof {
            assert(text@.subrange(0, k + 1).drop_last() =~= text@.subrange(0, k));
            assert(text@.subrange(0, k + 1).last() == c);
            lemma_digits_value_grows(text@, k + 1);
        }
        if !is_digit(c) {
            assert(!spec_is_digit(text@[k]));
            return None;
        }
        let digit: u32 = c as u32 - '0' as u32;
        if value > (u32::MAX - digit) / 10 {
            return None;
        }
        value = value * 10 + digit;
        proof {
            assert forall|j: int| 0 <= j < k + 1 implies spec_is_digit(
                #[trigger] text@.subrange(0, k + 1)[j],
            ) by {
                if j < k {
                    assert(text@.subrange(0, k)[j] == text@.subrange(0, k + 1)[j]);
                }
            }
        }
    }
    assert(text@.subrange(0, text@.len() as int) =~= text@);
    Some(value)
}

impl Number {
    /// The sign: -1 or 1.
    pub fn sign(&self) -> (r: i32)
        ensures
            r == self@.sign(),
    {
        if self.negative {
            -1
        } else {
            1
        }
    }

    /// The exponent with its sign, if its digits fit in 32 bits.
    pub fn exponent_value(&self) -> (r: Option<i64>)
        ensures
            r matches Some(value) ==> value == self@.exponent_value(),
            r is None ==> !all_digits(self@.exponent) || digits_value(self@.exponent) > u32::MAX,
    {
        match digits_to_u32(self.exponent.as_str()) {
            Some(value) => {
                let value: i64 = value as i64;
                if self.exponent_negative {
                    Some(-value)
                } else {
                    Some(value)
                }
            },
            None => None,
        }
    }

    /// The value of the integer digits, if it fits in 32 bits.
    pub fn integer_value(&self) -> (r: Option<u32>)
        ensures
            r matches Some(value) ==> value == self@.integer_value(),
            r is None ==> !all_digits(self@.integer) || self@.integer_value() > u32::MAX,
    {
        digits_to_u32(self.integer.as_str())
    }

    /// The value of the fractional digits, if it fits in 32 bits.
    pub fn fraction_value(&self) -> (r: Option<u32>)
        ensures
            r matches Some(value) ==> value == self@.fraction_value(),
            r is None ==> !all_digits(self@.fraction) || self@.fraction_value() > u32::MAX,
    {
        digits_to_u32(self.fraction.as_str())
    }

    /// The value of the digits of the exponent, if it fits in 32 bits.
    pub fn exponent_digits_value(&self) -> (r: Option<u32>)
        ensures
            r matches Some(value) ==> value == digits_value(self@.exponent),
            r is None ==> !all_digits(self@.exponent) || digits_value(self@.exponent) > u32::MAX,
    {
        digits_to_u32(self.exponent.as_str())
    }
}

} // verus!
