//! What the lexer produces, stated on the text alone.
//!
//! Positions in this module are indices of code points. Spans hold byte
//! offsets: see [`byte_offset`].

use super::helpers::{spec_is_digit, spec_is_name, spec_is_whitespace, spec_would_start_identifier};
use super::helpers::{is_digit, is_name, is_whitespace};
use super::source::byte_offset;
use super::{Delim, LexError, NumberModel, Span, TokenModel, TreeModel};
use vstd::prelude::*;

verus! {

/// A class of code points of which a token takes a run.
#[derive(Clone, Copy, Debug, PartialEq, Eq, Structural)]
pub enum CharClass {
    /// Whitespace.
    Whitespace,
    /// What may continue a name.
    Name,
    /// Digits.
    Digit,
    /// Anything but a newline.
    NotNewline,
    /// Anything but the given code point.
    Not(char),
}

impl CharClass {
    /// Whether `c` belongs to the class.
    pub open spec fn spec_holds(self, c: char) -> bool {
        match self {
            CharClass::Whitespace => spec_is_whitespace(c),
            CharClass::Name => spec_is_name(c),
            CharClass::Digit => spec_is_digit(c),
            CharClass::NotNewline => c != '\n',
            CharClass::Not(x) => c != x,
        }
    }

    /// Whether `c` belongs to the class.
    #[verifier::when_used_as_spec(spec_holds)]
    pub fn holds(self, c: char) -> (r: bool)
        ensures
            r == self.spec_holds(c),
    {
        match self {
            CharClass::Whitespace => is_whitespace(c),
            CharClass::Name => is_name(c),
            CharClass::Digit => is_digit(c),
            CharClass::NotNewline => c != '\n',
            CharClass::Not(x) => c != x,
        }
    }
}

/// Where the longest run of `class` that starts at `i` ends.
pub open spec fn run_end(s: Seq<char>, i: int, class: CharClass) -> int
    decreases s.len() - i,
{
    if 0 <= i < s.len() && class.spec_holds(s[i]) {
        run_end(s, i + 1, class)
    } else {
        i
    }
}

/// `run_end` is the first index from `i` on that is the end of the text or
/// holds a code point outside `class`.
pub proof fn lemma_run_end(s: Seq<char>, i: int, class: CharClass)
    requires
        0 <= i <= s.len(),
    ensures
        i <= run_end(s, i, class) <= s.len(),
        forall|k: int| i <= k < run_end(s, i, class) ==> class.spec_holds(#[trigger] s[k]),
        run_end(s, i, class) < s.len() ==> !class.spec_holds(s[run_end(s, i, class)]),
    decreases s.len() - i,
{
    if i < s.len() && class.spec_holds(s[i]) {
        lemma_run_end(s, i + 1, class);
    }
}

/// Where the body of a block comment ends whose body starts at `i`: at the
/// first `*/` from there on, or at the end of the text if there is none.
pub open spec fn block_comment_body_end(s: Seq<char>, i: int) -> int
    decreases s.len() - i,
{
    if i < 0 || i >= s.len() {
        s.len() as int
    } else if s[i] == '*' && i + 1 < s.len() && s[i + 1] == '/' {
        i
    } else {
        block_comment_body_end(s, i + 1)
    }
}

/// `block_comment_body_end` lies between `i` and the end of the text.
pub proof fn lemma_block_comment_body_end(s: Seq<char>, i: int)
    requires
        0 <= i <= s.len(),
    ensures
        i <= block_comment_body_end(s, i) <= s.len(),
        block_comment_body_end(s, i) < s.len() ==> block_comment_body_end(s, i) + 2 <= s.len(),
    decreases s.len() - i,
{
    if i < s.len() && !(s[i] == '*' && i + 1 < s.len() && s[i + 1] == '/') {
        lemma_block_comment_body_end(s, i + 1);
    }
}

/// Whether an identifier starts at `i`: the text from `i` on starts the way
/// an identifier does, and its first code point may continue a name.
pub open spec fn ident_at(s: Seq<char>, i: int) -> bool {
    0 <= i < s.len() && spec_would_start_identifier(s.subrange(i, s.len() as int)) && spec_is_name(
        s[i],
    )
}

/// 1 if a sign stands at `i`, else 0.
pub open spec fn sign_len(s: Seq<char>, i: int) -> int {
    if 0 <= i < s.len() && (s[i] == '+' || s[i] == '-') {
        1
    } else {
        0
    }
}

/// Whether a digit stands at `i`.
pub open spec fn digit_at(s: Seq<char>, i: int) -> bool {
    0 <= i < s.len() && spec_is_digit(s[i])
}

/// The integer and fractional digits of a number whose sign, if any, ends at
/// `p`: where the integer digits end, and where the fractional digits start
/// and end. Either digits, with `.` and digits after them if both are there;
/// or `.` and digits.
pub open spec fn mantissa_at(s: Seq<char>, p: int) -> Option<(int, int, int)> {
    if digit_at(s, p) {
        let q = run_end(s, p, CharClass::Digit);
        if q < s.len() && s[q] == '.' && digit_at(s, q + 1) {
            Some((q, q + 1, run_end(s, q + 1, CharClass::Digit)))
        } else {
            Some((q, q, q))
        }
    } else if 0 <= p < s.len() && s[p] == '.' && digit_at(s, p + 1) {
        Some((p, p + 1, run_end(s, p + 1, CharClass::Digit)))
    } else {
        None
    }
}

/// The exponent of a number whose mantissa ends at `r`: where its digits
/// start and end. It is `e` or `E`, a sign or none, and digits.
pub open spec fn exponent_at(s: Seq<char>, r: int) -> Option<(int, int)> {
    let d = r + 1 + sign_len(s, r + 1);
    if 0 <= r < s.len() && (s[r] == 'e' || s[r] == 'E') && digit_at(s, d) {
        Some((d, run_end(s, d, CharClass::Digit)))
    } else {
        None
    }
}

/// The number that starts at `i`, and where it ends.
pub open spec fn number_at(s: Seq<char>, i: int) -> Option<(NumberModel, int)> {
    let p = i + sign_len(s, i);
    match mantissa_at(s, p) {
        None => None,
        Some((q, f, r)) => {
            let negative = p > i && s[i] == '-';
            let integer = s.subrange(p, q);
            let fraction = s.subrange(f, r);
            match exponent_at(s, r) {
                None => Some(
                    (
                        NumberModel {
                            negative,
                            integer,
                            fraction,
                            exponent_negative: false,
                            exponent: Seq::empty(),
                        },
                        r,
                    ),
                ),
                Some((d, e)) => Some(
                    (
                        NumberModel {
                            negative,
                            integer,
                            fraction,
                            exponent_negative: d > r + 1 && s[r + 1] == '-',
                            exponent: s.subrange(d, e),
                        },
                        e,
                    ),
                ),
            }
        },
    }
}

/// The token that starts at `i`, and where it ends. The first of these that
/// fits wins: whitespace, a line comment, a block comment, an identifier, a
/// hash, a string, a number, a symbol. `None` stands for a string without its
/// closing quote.
pub open spec fn token_at(s: Seq<char>, i: int) -> Option<(TokenModel, int)>
    recommends
        0 <= i < s.len(),
{
    let c = s[i];
    let n = s.len() as int;
    if spec_is_whitespace(c) {
        Some((TokenModel::Whitespace, run_end(s, i, CharClass::Whitespace)))
    } else if c == '/' && i + 1 < n && s[i + 1] == '/' {
        let e = run_end(s, i + 2, CharClass::NotNewline);
        Some((TokenModel::Comment(s.subrange(i + 2, e)), e))
    } else if c == '/' && i + 1 < n && s[i + 1] == '*' {
        let e = block_comment_body_end(s, i + 2);
        Some((TokenModel::Comment(s.subrange(i + 2, e)), if e < n { e + 2 } else { n }))
    } else if ident_at(s, i) {
        let e = run_end(s, i, CharClass::Name);
        Some((TokenModel::Ident(s.subrange(i, e)), e))
    } else if c == '#' && i + 1 < n && spec_is_name(s[i + 1]) {
        let e = run_end(s, i + 1, CharClass::Name);
        Some((TokenModel::Hash(s.subrange(i + 1, e)), e))
    } else if c == '"' || c == '\'' {
        let e = run_end(s, i + 1, CharClass::Not(c));
        if e < n {
            Some((TokenModel::String(s.subrange(i + 1, e)), e + 1))
        } else {
            None
        }
    } else {
        match number_at(s, i) {
            Some((number, e)) => Some((TokenModel::Number(number), e)),
            None => Some((TokenModel::Symbol(c), i + 1)),
        }
    }
}

/// The delimiter that `c` opens.
pub open spec fn opening_delim(c: char) -> Option<Delim> {
    if c == '(' {
        Some(Delim::Paren)
    } else if c == '{' {
        Some(Delim::Brace)
    } else if c == '[' {
        Some(Delim::Bracket)
    } else {
        None
    }
}

/// The delimiter that `c` closes.
pub open spec fn closing_delim(c: char) -> Option<Delim> {
    if c == ')' {
        Some(Delim::Paren)
    } else if c == '}' {
        Some(Delim::Brace)
    } else if c == ']' {
        Some(Delim::Bracket)
    } else {
        None
    }
}

/// The span of the code points from index `i` up to index `j`, in bytes.
pub open spec fn span_of(s: Seq<char>, i: int, j: int) -> Span {
    Span { start: byte_offset(s, i) as usize, end: byte_offset(s, j) as usize }
}

/// The token tree that starts at `i`, and where it ends: a group from an
/// opening delimiter to its partner, or else a single token. A group whose
/// content stops at the end of the text or before another closing delimiter
/// is an error at its opening delimiter.
pub open spec fn lex_tree(s: Seq<char>, i: int) -> Result<((TreeModel, Span), int), LexError>
    recommends
        0 <= i < s.len(),
    decreases s.len() - i, 0int,
{
    if i < 0 || i >= s.len() {
        Err(LexError::UnterminatedString(0))
    } else {
        match opening_delim(s[i]) {
            Some(delim) => match lex_seq(s, i + 1) {
                Err(e) => Err(e),
                Ok((items, j, closer)) => if closer == Some(delim) {
                    Ok(((TreeModel::Tree(delim, items), span_of(s, i, j + 1)), j + 1))
                } else {
                    Err(LexError::UnmatchedOpen(delim, byte_offset(s, i) as usize))
                },
            },
            None => match token_at(s, i) {
                Some((token, j)) => Ok(((TreeModel::Token(token), span_of(s, i, j)), j)),
                None => Err(LexError::UnterminatedString(byte_offset(s, i) as usize)),
            },
        }
    }
}

/// The token trees from `i` up to the first closing delimiter that belongs to
/// none of them, or up to the end of the text: the trees, where they stop,
/// and the delimiter that the code point there closes (`None` at the end of
/// the text).
pub open spec fn lex_seq(s: Seq<char>, i: int) -> Result<
    (Seq<(TreeModel, Span)>, int, Option<Delim>),
    LexError,
>
    decreases s.len() - i, 1int,
{
    if i < 0 || i >= s.len() {
        Ok((Seq::empty(), s.len() as int, None))
    } else if closing_delim(s[i]) is Some {
        Ok((Seq::empty(), i, closing_delim(s[i])))
    } else {
        match lex_tree(s, i) {
            Err(e) => Err(e),
            Ok((tree, j)) => if j <= i || j > s.len() {
                Err(LexError::UnterminatedString(0))
            } else {
                match lex_seq(s, j) {
                    Err(e) => Err(e),
                    Ok((rest, k, closer)) => Ok((seq![tree] + rest, k, closer)),
                }
            },
        }
    }
}

/// The token trees of a whole text. A closing delimiter outside every group
/// is an error at that delimiter.
pub open spec fn lex(s: Seq<char>) -> Result<Seq<(TreeModel, Span)>, LexError> {
    match lex_seq(s, 0) {
        Err(e) => Err(e),
        Ok((items, j, closer)) => match closer {
            None => Ok(items),
            Some(delim) => Err(LexError::StrayClose(delim, byte_offset(s, j) as usize)),
        },
    }
}

} // verus!
