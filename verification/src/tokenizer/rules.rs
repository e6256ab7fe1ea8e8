//! What the tokenizer produces, stated on the text alone.
//!
//! Positions are indices of code points.

use super::helpers::{
    spec_is_digit, spec_is_name, spec_is_name_start, spec_is_valid_escape, spec_is_whitespace,
    spec_would_start_identifier, spec_would_start_number,
};
use super::TokenModel;
use vstd::prelude::*;

verus! {

/// The code point at `i`, if the text reaches that far.
pub open spec fn at(s: Seq<char>, i: int) -> Option<char> {
    if 0 <= i < s.len() {
        Some(s[i])
    } else {
        None
    }
}

/// Whether three code points stand from `i` on.
pub open spec fn three(s: Seq<char>, i: int) -> bool {
    0 <= i && i + 2 < s.len()
}

/// A class of code points of which a token takes a run.
#[derive(Clone, Copy, Debug, PartialEq, Eq, Structural)]
pub enum Run {
    Whitespace,
    Digit,
}

impl Run {
    /// Whether `c` belongs to the class.
    pub open spec fn spec_holds(self, c: char) -> bool {
        match self {
            Run::Whitespace => spec_is_whitespace(c),
            Run::Digit => spec_is_digit(c),
        }
    }
}

/// Where the longest run of `run` that starts at `i` ends.
pub open spec fn run_end(s: Seq<char>, i: int, run: Run) -> int
    decreases s.len() - i,
{
    if 0 <= i < s.len() && run.spec_holds(s[i]) {
        run_end(s, i + 1, run)
    } else {
        i
    }
}

/// `run_end` lies between `i` and the end of the text.
pub proof fn lemma_run_end(s: Seq<char>, i: int, run: Run)
    requires
        0 <= i <= s.len(),
    ensures
        i <= run_end(s, i, run) <= s.len(),
        forall|k: int| i <= k < run_end(s, i, run) ==> run.spec_holds(#[trigger] s[k]),
        run_end(s, i, run) < s.len() ==> !run.spec_holds(s[run_end(s, i, run)]),
    decreases s.len() - i,
{
    if i < s.len() && run.spec_holds(s[i]) {
        lemma_run_end(s, i + 1, run);
    }
}

/// How many code points of a name stand at `i`: one name code point, or
/// the two of a valid escape, or none.
pub open spec fn name_step(s: Seq<char>, i: int) -> int {
    if 0 <= i < s.len() && spec_is_name(s[i]) {
        1
    } else if 0 <= i && i + 1 < s.len() && spec_is_valid_escape(s[i], s[i + 1]) {
        2
    } else {
        0
    }
}

/// Where the name that starts at `i` ends: behind the longest run of name
/// code points and valid escapes.
pub open spec fn name_end(s: Seq<char>, i: int) -> int
    decreases s.len() - i,
{
    if name_step(s, i) > 0 {
        name_end(s, i + name_step(s, i))
    } else {
        i
    }
}

/// `name_end` lies between `i` and the end of the text, and behind `i`
/// where a name code point or a valid escape stands at `i`.
pub proof fn lemma_name_end(s: Seq<char>, i: int)
    requires
        0 <= i <= s.len(),
    ensures
        i + name_step(s, i) <= name_end(s, i) <= s.len(),
        name_step(s, name_end(s, i)) == 0,
    decreases s.len() - i,
{
    if name_step(s, i) > 0 {
        lemma_name_end(s, i + name_step(s, i));
    }
}

/// The text that stands for a name or a string in which a backslash was
/// found: escapes are not decoded.
pub open spec fn escape_marker() -> Seq<char> {
    "<ESCAPE CODEPOINTS>"@
}

/// Whether the name that starts at `i` holds an escape, or ends at a
/// backslash.
pub open spec fn name_escaped(s: Seq<char>, i: int) -> bool
    decreases s.len() - i,
{
    if name_step(s, i) == 1 {
        name_escaped(s, i + 1)
    } else if name_step(s, i) == 2 {
        true
    } else {
        at(s, i) == Some('\\')
    }
}

/// The name that starts at `i`, and where it ends: the text of the run of
/// name code points, or the marker where the name holds an escape or ends
/// at a backslash. The escapes belong to the name; a backslash that escapes
/// nothing is left.
pub open spec fn name_at(s: Seq<char>, i: int) -> (Seq<char>, int) {
    if name_escaped(s, i) {
        (escape_marker(), name_end(s, i))
    } else {
        (s.subrange(i, name_end(s, i)), name_end(s, i))
    }
}

/// Where a number that starts at `i` ends, and whether it is an integer: a
/// sign or none, digits or none, then `.` and digits if a digit follows the
/// `.`, then an exponent if `e` or `E` and a digit or a sign and a digit
/// follow.
pub open spec fn number_at(s: Seq<char>, i: int) -> (int, bool) {
    let p = if at(s, i) == Some('+') || at(s, i) == Some('-') {
        i + 1
    } else {
        i
    };
    let q = run_end(s, p, Run::Digit);
    let fraction = at(s, q) == Some('.') && 0 <= q + 1 < s.len() && spec_is_digit(s[q + 1]);
    let r = if fraction {
        run_end(s, q + 2, Run::Digit)
    } else {
        q
    };
    let exponent = at(s, r) == Some('e') || at(s, r) == Some('E');
    if exponent && 0 <= r + 1 < s.len() && spec_is_digit(s[r + 1]) {
        (run_end(s, r + 1, Run::Digit), false)
    } else if exponent && (at(s, r + 1) == Some('+') || at(s, r + 1) == Some('-')) && 0 <= r + 2
        < s.len() && spec_is_digit(s[r + 2]) {
        (run_end(s, r + 3, Run::Digit), false)
    } else {
        (r, !fraction)
    }
}

/// The numeric token that starts at `i`, and where it ends: a number and,
/// if three code points follow it that would start an identifier, its unit;
/// or a number and `%`; or a number alone.
pub open spec fn numeric_at(s: Seq<char>, i: int) -> (TokenModel, int) {
    let (end, is_integer) = number_at(s, i);
    let value = s.subrange(i, end);
    if three(s, end) && spec_would_start_identifier(s[end], s[end + 1], s[end + 2]) {
        (TokenModel::Dimension { value, is_integer, unit: name_at(s, end).0 }, name_at(s, end).1)
    } else if at(s, end) == Some('%') {
        (TokenModel::Percentage { value }, end + 1)
    } else {
        (TokenModel::Number { value, is_integer }, end)
    }
}

/// Whether `text` is `url`, in any case.
pub open spec fn is_url(text: Seq<char>) -> bool {
    &&& text.len() == 3
    &&& (text[0] == 'u' || text[0] == 'U')
    &&& (text[1] == 'r' || text[1] == 'R')
    &&& (text[2] == 'l' || text[2] == 'L')
}

/// The first index from `i` on at which not two whitespace code points
/// stand in a row.
pub open spec fn skip_doubled_whitespace(s: Seq<char>, i: int) -> int
    decreases s.len() - i,
{
    if 0 <= i && i + 1 < s.len() && spec_is_whitespace(s[i]) && spec_is_whitespace(s[i + 1]) {
        skip_doubled_whitespace(s, i + 1)
    } else {
        i
    }
}

/// Whether `c` is a quote.
pub open spec fn is_quote(c: Option<char>) -> bool {
    c == Some('"') || c == Some('\'')
}

/// The token that starts with the name at `i`, and where it ends: a
/// function if `(` follows the name, else an identifier. The `(` is not
/// part of the function. Behind `url(`, where no quoted string follows, the
/// token is a URL, which ends behind the `(` and the whitespace there but
/// for one.
pub open spec fn identlike_at(s: Seq<char>, i: int) -> (TokenModel, int) {
    let (name, end) = name_at(s, i);
    if at(s, end) == Some('(') {
        if is_url(name) {
            let p = skip_doubled_whitespace(s, end + 1);
            if is_quote(at(s, p)) || (0 <= p < s.len() && spec_is_whitespace(s[p]) && is_quote(
                at(s, p + 1),
            )) {
                (TokenModel::Function(name), p)
            } else {
                (TokenModel::Url, p)
            }
        } else {
            (TokenModel::Function(name), end)
        }
    } else {
        (TokenModel::Ident(name), end)
    }
}

/// The first index from `i` on that holds `ending`, a newline or a
/// backslash, or the end of the text.
pub open spec fn string_stop(s: Seq<char>, i: int, ending: char) -> int
    decreases s.len() - i,
{
    if 0 <= i < s.len() && s[i] != ending && s[i] != '\n' && s[i] != '\\' {
        string_stop(s, i + 1, ending)
    } else {
        i
    }
}

/// `string_stop` lies between `i` and the end of the text.
pub proof fn lemma_string_stop(s: Seq<char>, i: int, ending: char)
    requires
        0 <= i <= s.len(),
    ensures
        i <= string_stop(s, i, ending) <= s.len(),
    decreases s.len() - i,
{
    if i < s.len() && s[i] != ending && s[i] != '\n' && s[i] != '\\' {
        lemma_string_stop(s, i + 1, ending);
    }
}

/// What follows the opening quote of a string at `i`, and where it ends:
///
/// - the text between the quotes, the closing quote `ending` taken but left
///   out of the value;
/// - the text up to the end of the input, where no quote closes the string;
/// - nothing where a newline comes first, which is left;
/// - the marker where a backslash comes first, which is left.
pub open spec fn string_tail_at(s: Seq<char>, i: int, ending: char) -> (Option<Seq<char>>, int) {
    let stop = string_stop(s, i, ending);
    if at(s, stop) == Some(ending) {
        (Some(s.subrange(i, stop)), stop + 1)
    } else if at(s, stop) is None {
        (Some(s.subrange(i, stop)), stop)
    } else if at(s, stop) == Some('\n') {
        (None, stop)
    } else {
        (Some(escape_marker()), stop)
    }
}

/// The string token whose opening quote stands at `i`.
pub open spec fn string_at(s: Seq<char>, i: int, ending: char) -> (TokenModel, int) {
    match string_tail_at(s, i + 1, ending).0 {
        Some(value) => (TokenModel::String { value }, string_tail_at(s, i + 1, ending).1),
        None => (TokenModel::BadString, string_tail_at(s, i + 1, ending).1),
    }
}

/// The token that starts with the `#` at `i`: a hash if three code points
/// follow of which the first is a name code point or starts a valid escape;
/// else the delimiter.
pub open spec fn number_sign_at(s: Seq<char>, i: int) -> (TokenModel, int) {
    let p = i + 1;
    if three(s, p) && (spec_is_name(s[p]) || spec_is_valid_escape(s[p], s[p + 1])) {
        (
            TokenModel::Hash {
                is_id: spec_would_start_identifier(s[p], s[p + 1], s[p + 2]),
                value: name_at(s, p).0,
            },
            name_at(s, p).1,
        )
    } else {
        (TokenModel::Delim('#'), p)
    }
}

/// The token that starts with the `+` or the `.` at `i`: a numeric token if
/// three code points stand there that would start a number; else the
/// delimiter.
pub open spec fn sign_or_stop_at(s: Seq<char>, i: int) -> (TokenModel, int) {
    if three(s, i) && spec_would_start_number(s[i], s[i + 1], s[i + 2]) {
        numeric_at(s, i)
    } else {
        (TokenModel::Delim(s[i]), i + 1)
    }
}

/// The token that starts with the `-` at `i`: a numeric token, `-->`, an
/// identifier or the like, or the delimiter.
pub open spec fn minus_sign_at(s: Seq<char>, i: int) -> (TokenModel, int) {
    if three(s, i) && spec_would_start_number(s[i], s[i + 1], s[i + 2]) {
        numeric_at(s, i)
    } else if at(s, i + 1) == Some('-') && at(s, i + 2) == Some('>') {
        (TokenModel::CDC, i + 3)
    } else if three(s, i) && spec_would_start_identifier(s[i], s[i + 1], s[i + 2]) {
        identlike_at(s, i)
    } else {
        (TokenModel::Delim('-'), i + 1)
    }
}

/// The token that starts at `i`, and where it ends.
pub open spec fn token_at(s: Seq<char>, i: int) -> (TokenModel, int)
    recommends
        0 <= i < s.len(),
{
    let c = s[i];
    if spec_is_whitespace(c) {
        (
            TokenModel::Whitespace(s.subrange(i, run_end(s, i + 1, Run::Whitespace))),
            run_end(s, i + 1, Run::Whitespace),
        )
    } else if c == '"' || c == '\'' {
        string_at(s, i, c)
    } else if c == '#' {
        number_sign_at(s, i)
    } else if c == '(' {
        (TokenModel::LeftParenthesis, i + 1)
    } else if c == ')' {
        (TokenModel::RightParenthesis, i + 1)
    } else if c == '+' || c == '.' {
        sign_or_stop_at(s, i)
    } else if c == ',' {
        (TokenModel::Comma, i + 1)
    } else if c == '-' {
        minus_sign_at(s, i)
    } else if c == ':' {
        (TokenModel::Colon, i + 1)
    } else if c == ';' {
        (TokenModel::Semicolon, i + 1)
    } else if c == '<' {
        if at(s, i + 1) == Some('!') && at(s, i + 2) == Some('-') && at(s, i + 3) == Some('-') {
            (TokenModel::CDO, i + 1)
        } else {
            (TokenModel::Delim('<'), i + 1)
        }
    } else if c == '@' {
        if three(s, i + 1) && spec_would_start_identifier(s[i + 1], s[i + 2], s[i + 3]) {
            (TokenModel::AtKeyword(name_at(s, i + 1).0), name_at(s, i + 1).1)
        } else {
            (TokenModel::Delim('@'), i + 1)
        }
    } else if c == '[' {
        (TokenModel::LeftSquareBracket, i + 1)
    } else if c == '\\' {
        if 0 <= i + 1 < s.len() && spec_is_valid_escape(c, s[i + 1]) {
            identlike_at(s, i)
        } else {
            (TokenModel::Delim('\\'), i + 1)
        }
    } else if c == ']' {
        (TokenModel::RightSquareBracket, i + 1)
    } else if c == '{' {
        (TokenModel::LeftCurlyBracket, i + 1)
    } else if c == '}' {
        (TokenModel::RightCurlyBracket, i + 1)
    } else if spec_is_digit(c) {
        numeric_at(s, i)
    } else if spec_is_name_start(c) {
        identlike_at(s, i)
    } else {
        (TokenModel::Delim(c), i + 1)
    }
}

/// Whether a number starts at `i`: with a digit, with `.` and a digit, or
/// with a sign and then one of the two.
pub open spec fn starts_number(s: Seq<char>, i: int) -> bool {
    0 <= i < s.len() && (spec_is_digit(s[i]) || (three(s, i) && spec_would_start_number(
        s[i],
        s[i + 1],
        s[i + 2],
    )))
}

/// Whether a name or the like starts at `i`: with a name code point or a
/// valid escape.
pub open spec fn starts_name(s: Seq<char>, i: int) -> bool {
    0 <= i && name_step(s, i) > 0
}

/// A number that starts at `i` ends behind `i`.
pub proof fn lemma_number_advances(s: Seq<char>, i: int)
    requires
        starts_number(s, i),
    ensures
        i < number_at(s, i).0 <= s.len(),
{
    let p = if at(s, i) == Some('+') || at(s, i) == Some('-') {
        i + 1
    } else {
        i
    };
    lemma_run_end(s, p, Run::Digit);
    let q = run_end(s, p, Run::Digit);
    if p < s.len() && spec_is_digit(s[p]) {
        lemma_run_end(s, p + 1, Run::Digit);
    }
    if q + 2 <= s.len() {
        lemma_run_end(s, q + 2, Run::Digit);
    }
    let fraction = at(s, q) == Some('.') && 0 <= q + 1 < s.len() && spec_is_digit(s[q + 1]);
    let r = if fraction {
        run_end(s, q + 2, Run::Digit)
    } else {
        q
    };
    if r + 1 <= s.len() {
        lemma_run_end(s, r + 1, Run::Digit);
    }
    if r + 3 <= s.len() {
        lemma_run_end(s, r + 3, Run::Digit);
    }
}

/// `skip_doubled_whitespace` lies between `i` and the end of the text.
pub proof fn lemma_skip_doubled_whitespace(s: Seq<char>, i: int)
    requires
        0 <= i <= s.len(),
    ensures
        i <= skip_doubled_whitespace(s, i) <= s.len(),
    decreases s.len() - i,
{
    if i + 1 < s.len() && spec_is_whitespace(s[i]) && spec_is_whitespace(s[i + 1]) {
        lemma_skip_doubled_whitespace(s, i + 1);
    }
}

/// A numeric token that starts at `i` ends behind `i`.
pub proof fn lemma_numeric_advances(s: Seq<char>, i: int)
    requires
        starts_number(s, i),
    ensures
        i < numeric_at(s, i).1 <= s.len(),
{
    lemma_number_advances(s, i);
    lemma_name_end(s, number_at(s, i).0);
}

/// An identifier or the like that starts at `i` ends behind `i`.
pub proof fn lemma_identlike_advances(s: Seq<char>, i: int)
    requires
        starts_name(s, i),
    ensures
        i < identlike_at(s, i).1 <= s.len(),
{
    lemma_name_end(s, i);
    let end = name_end(s, i);
    if end < s.len() {
        lemma_skip_doubled_whitespace(s, end + 1);
    }
}

/// Every token ends behind the code point at which it starts, and within
/// the text: taking tokens comes to the end of the text.
pub proof fn lemma_token_advances(s: Seq<char>, i: int)
    requires
        0 <= i < s.len(),
    ensures
        i < token_at(s, i).1 <= s.len(),
{
    let c = s[i];
    lemma_run_end(s, i + 1, Run::Whitespace);
    lemma_string_stop(s, i + 1, c);
    lemma_name_end(s, i + 1);
    if starts_number(s, i) {
        lemma_numeric_advances(s, i);
    }
    if starts_name(s, i) {
        lemma_identlike_advances(s, i);
    }
}

/// The tokens from `i` on to the end of the text. Each ends behind its
/// start and within the text, as `lemma_token_advances` shows.
pub open spec fn tokens_from(s: Seq<char>, i: int) -> Seq<TokenModel>
    decreases s.len() - i,
{
    let (token, end) = token_at(s, i);
    if 0 <= i < end <= s.len() {
        seq![token] + tokens_from(s, end)
    } else {
        Seq::empty()
    }
}

} // verus!
