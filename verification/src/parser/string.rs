//! Strings and the interpolations in them.

use super::{error, ErrorKind, ParseError};
use crate::ast::expression::{
    interpolations_view, strings_view, well_formed, Expression, ExpressionModel,
    InterpolatedValue, InterpolatedValueModel,
};
use crate::lexer::rules::{ident_at, lemma_run_end, run_end, CharClass};
use crate::lexer::scan::scan_run;
use crate::lexer::helpers::{identifier_starts_at, is_name};
use crate::lexer::source::{byte_offset, SourceText};
use crate::lexer::Span;
use vstd::prelude::*;

verus! {

/// Whether an interpolation opens at `i`: `@{` or `${`.
pub open spec fn interpolation_at(s: Seq<char>, i: int) -> bool {
    0 <= i && i + 1 < s.len() && (s[i] == '@' || s[i] == '$') && s[i + 1] == '{'
}

/// The first index from `i` on at which an interpolation opens, or the end
/// of the text.
pub open spec fn part_end(s: Seq<char>, i: int) -> int
    decreases s.len() - i,
{
    if 0 <= i < s.len() && !interpolation_at(s, i) {
        part_end(s, i + 1)
    } else {
        i
    }
}

/// `part_end` lies between `i` and the end of the text.
pub proof fn lemma_part_end(s: Seq<char>, i: int)
    requires
        0 <= i <= s.len(),
    ensures
        i <= part_end(s, i) <= s.len(),
        part_end(s, i) < s.len() ==> interpolation_at(s, part_end(s, i)),
    decreases s.len() - i,
{
    if i < s.len() && !interpolation_at(s, i) {
        lemma_part_end(s, i + 1);
    }
}

/// Why the content of a string cannot be read, and the index of the fault.
pub enum StringFault {
    /// The interpolation that opens here is not closed behind its name.
    Unterminated(int),
    /// What stands here is no name.
    BadName(int),
}

/// The literal parts and the interpolations of the text from `i` on, after
/// those in `parts` and `values`.
///
/// A part reaches up to the next `@{` or `${`. Behind it stand a name and
/// `}`.
pub open spec fn interpolated(
    s: Seq<char>,
    i: int,
    parts: Seq<Seq<char>>,
    values: Seq<InterpolatedValueModel>,
) -> Result<(Seq<Seq<char>>, Seq<InterpolatedValueModel>), StringFault>
    decreases s.len() - i,
{
    let open = part_end(s, i);
    let part = s.subrange(i, open);
    let name_end = run_end(s, open + 2, CharClass::Name);
    if !(0 <= i <= open < s.len()) {
        Ok((parts.push(part), values))
    } else if !(open + 2 <= name_end < s.len() && s[name_end] == '}') {
        Err(StringFault::Unterminated(open))
    } else if !ident_at(s, open + 2) {
        Err(StringFault::BadName(open + 2))
    } else {
        let name = s.subrange(open + 2, name_end);
        let value = if s[open] == '@' {
            InterpolatedValueModel::Variable(name)
        } else {
            InterpolatedValueModel::Property(name)
        };
        interpolated(s, name_end + 1, parts.push(part), values.push(value))
    }
}

/// There is one part more than there are interpolations.
pub proof fn lemma_interpolated_parts(
    s: Seq<char>,
    i: int,
    parts: Seq<Seq<char>>,
    values: Seq<InterpolatedValueModel>,
)
    requires
        0 <= i <= s.len(),
    ensures
        interpolated(s, i, parts, values) matches Ok((all_parts, all_values)) ==> all_parts.len()
            - all_values.len() == parts.len() - values.len() + 1 && all_values.len()
            >= values.len(),
    decreases s.len() - i,
{
    let open = part_end(s, i);
    let name_end = run_end(s, open + 2, CharClass::Name);
    lemma_part_end(s, i);
    if open < s.len() && name_end < s.len() && s[name_end] == '}' && ident_at(s, open + 2) {
        lemma_run_end(s, open + 2, CharClass::Name);
        let name = s.subrange(open + 2, name_end);
        let value = if s[open] == '@' {
            InterpolatedValueModel::Variable(name)
        } else {
            InterpolatedValueModel::Property(name)
        };
        lemma_interpolated_parts(
            s,
            name_end + 1,
            parts.push(s.subrange(i, open)),
            values.push(value),
        );
    }
}

/// `a + b`, or the largest number if that is too large.
pub open spec fn spec_offset_by(a: usize, b: int) -> usize {
    if a + b <= usize::MAX {
        (a + b) as usize
    } else {
        usize::MAX
    }
}

/// The span of the one byte that stands `offset` bytes behind the opening
/// quote of the string at `span`.
pub open spec fn spec_content_span(span: Span, offset: int) -> Span {
    Span {
        start: spec_offset_by(span.start, offset + 1),
        end: spec_offset_by(span.start, offset + 2),
    }
}

/// The value of a string token with the content `s` that stands at `span`:
/// a quoted string if nothing is interpolated in it, else an interpolated
/// string. An error points at the `@` or `$` of the interpolation that is
/// not closed, or at the start of what should be a name.
pub open spec fn string_value(s: Seq<char>, span: Span) -> Result<ExpressionModel, ParseError> {
    if part_end(s, 0) >= s.len() {
        Ok(ExpressionModel::QuotedString(s))
    } else {
        match interpolated(s, 0, Seq::empty(), Seq::empty()) {
            Ok((parts, values)) => Ok(ExpressionModel::InterpolatedString(parts, values)),
            Err(StringFault::Unterminated(i)) => Err(
                super::rules::error(
                    ErrorKind::UnterminatedInterpolation,
                    spec_content_span(span, byte_offset(s, i) as int),
                ),
            ),
            Err(StringFault::BadName(i)) => Err(
                super::rules::error(
                    ErrorKind::UnexpectedToken,
                    spec_content_span(span, byte_offset(s, i) as int),
                ),
            ),
        }
    }
}

/// `a + b`, or the largest number if that is too large.
fn offset_by(a: usize, b: usize, c: usize) -> (r: usize)
    ensures
        r == spec_offset_by(a, b + c),
{
    if b <= usize::MAX - a && c <= usize::MAX - a - b {
        a + b + c
    } else {
        usize::MAX
    }
}

/// The span of the one byte that stands `offset` bytes behind the opening
/// quote of the string at `span`.
fn content_span(span: Span, offset: usize) -> (r: Span)
    ensures
        r == spec_content_span(span, offset as int),
{
    Span { start: offset_by(span.start, offset, 1), end: offset_by(span.start, offset, 2) }
}

/// Where the part that starts at `start` ends.
fn scan_part(src: &SourceText, start: usize) -> (end: usize)
    requires
        start <= src@.len(),
    ensures
        end == part_end(src@, start as int),
        start <= end <= src@.len(),
        end < src@.len() ==> interpolation_at(src@, end as int),
{
    let n = src.len();
    let mut i = start;
    while i < n && !(i + 1 < n && (src.get(i) == '@' || src.get(i) == '$') && src.get(i + 1) == '{')
        invariant
            start <= i <= n,
            n == src@.len(),
            part_end(src@, start as int) == part_end(src@, i as int),
        decreases n - i,
    {
        i += 1;
    }
    i
}

/// Reads the content `text` of a string token that stands at `span`.
///
/// The result is a quoted string, or an interpolated string where `@{name}`
/// or `${name}` stands in the text.
pub fn string(text: &str, span: Span) -> (r: Result<Expression, ParseError>)
    ensures
        match r {
            Ok(expression) => string_value(text@, span) == Ok::<ExpressionModel, ParseError>(
                expression@,
            ),
            Err(e) => string_value(text@, span) == Err::<ExpressionModel, ParseError>(e),
        },
        r matches Ok(Expression::InterpolatedString(parts, values)) ==> parts.len() == values.len()
            + 1,
        r matches Ok(value) ==> well_formed(value@),
{
    let src = SourceText::new(text);
    let n = src.len();
    let first = scan_part(&src, 0);
    assert(text@.subrange(0, n as int) =~= text@);
    if first >= n {
        return Ok(Expression::QuotedString(src.text(0, n)));
    }
    let mut parts: Vec<String> = Vec::new();
    let mut values: Vec<InterpolatedValue> = Vec::new();
    let mut i: usize = 0;
    proof {
        assert(strings_view(parts@) =~= Seq::empty());
        assert(interpolations_view(values@) =~= Seq::empty());
        assert(text@.subrange(0, n as int) =~= text@);
    }
    loop
        invariant
            src.wf(),
            src@ == text@,
            n == src@.len(),
            i <= n,
            parts.len() == values.len(),
            part_end(text@, 0) < n,
            interpolated(text@, 0, Seq::empty(), Seq::empty()) == interpolated(
                text@,
                i as int,
                strings_view(parts@),
                interpolations_view(values@),
            ),
        decreases n - i,
    {
        let open = scan_part(&src, i);
        let part = src.text(i, open);
        proof {
            assert(strings_view(parts@.push(part)) =~= strings_view(parts@).push(part@));
        }
        parts.push(part);
        if open >= n {
            return Ok(Expression::InterpolatedString(parts, values));
        }
        let name_end = scan_run(&src, open + 2, CharClass::Name);
        proof {
            lemma_run_end(src@, open + 2, CharClass::Name);
        }
        if !(name_end < n && src.get(name_end) == '}') {
            return Err(
                error(ErrorKind::UnterminatedInterpolation, content_span(span, src.offset(open))),
            );
        }
        if !(identifier_starts_at(src.chars(), open + 2) && is_name(src.get(open + 2))) {
            return Err(
                error(ErrorKind::UnexpectedToken, content_span(span, src.offset(open + 2))),
            );
        }
        let name = src.text(open + 2, name_end);
        let value = if src.get(open) == '@' {
            InterpolatedValue::Variable(name)
        } else {
            InterpolatedValue::Property(name)
        };
        proof {
            assert(interpolations_view(values@.push(value)) =~= interpolations_view(values@).push(
                value@,
            ));
        }
        values.push(value);
        i = name_end + 1;
    }
}

} // verus!
