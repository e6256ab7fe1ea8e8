//! A tokenizer for plain CSS, after the tokenization chapter of CSS Syntax
//! Level 3.
//!
//! Escapes are not decoded: a marker stands for a name or a string that
//! holds one. URLs are not read, and comments are not skipped. Every token
//! takes at least one code point.

use vstd::prelude::*;

pub mod helpers;
pub mod rules;

use helpers::{
    is_digit, is_name, is_name_start, is_valid_escape, is_whitespace, would_start_identifier,
    would_start_number,
};
use rules::Run;

verus! {

/// A token of CSS.
#[derive(Debug, PartialEq, Eq)]
#[allow(inconsistent_fields)]
pub enum Token {
    Ident(String),
    Function(String),
    AtKeyword(String),
    Hash {
        is_id: bool,
        value: String,
    },
    String {
        /// What stands between the quotes, or the marker.
        value: String,
    },
    BadString,
    Url,
    BadUrl,
    Delim(char),
    Number {
        value: String,
        is_integer: bool,
    },
    Percentage {
        value: String,
    },
    Dimension {
        value: String,
        is_integer: bool,
        unit: String,
    },
    Whitespace(String),
    CDO,
    CDC,
    Colon,
    Semicolon,
    Comma,
    LeftSquareBracket,
    RightSquareBracket,
    LeftParenthesis,
    RightParenthesis,
    LeftCurlyBracket,
    RightCurlyBracket,
}

/// What a [`Token`] holds.
#[allow(inconsistent_fields)]
pub enum TokenModel {
    Ident(Seq<char>),
    Function(Seq<char>),
    AtKeyword(Seq<char>),
    Hash { is_id: bool, value: Seq<char> },
    String { value: Seq<char> },
    BadString,
    Url,
    BadUrl,
    Delim(char),
    Number { value: Seq<char>, is_integer: bool },
    Percentage { value: Seq<char> },
    Dimension { value: Seq<char>, is_integer: bool, unit: Seq<char> },
    Whitespace(Seq<char>),
    CDO,
    CDC,
    Colon,
    Semicolon,
    Comma,
    LeftSquareBracket,
    RightSquareBracket,
    LeftParenthesis,
    RightParenthesis,
    LeftCurlyBracket,
    RightCurlyBracket,
}

impl View for Token {
    type V = TokenModel;

    open spec fn view(&self) -> TokenModel {
        match self {
            Token::Ident(text) => TokenModel::Ident(text@),
            Token::Function(text) => TokenModel::Function(text@),
            Token::AtKeyword(text) => TokenModel::AtKeyword(text@),
            Token::Hash { is_id, value } => TokenModel::Hash { is_id: *is_id, value: value@ },
            Token::String { value } => TokenModel::String { value: value@ },
            Token::BadString => TokenModel::BadString,
            Token::Url => TokenModel::Url,
            Token::BadUrl => TokenModel::BadUrl,
            Token::Delim(c) => TokenModel::Delim(*c),
            Token::Number { value, is_integer } => TokenModel::Number {
                value: value@,
                is_integer: *is_integer,
            },
            Token::Percentage { value } => TokenModel::Percentage { value: value@ },
            Token::Dimension { value, is_integer, unit } => TokenModel::Dimension {
                value: value@,
                is_integer: *is_integer,
                unit: unit@,
            },
            Token::Whitespace(text) => TokenModel::Whitespace(text@),
            Token::CDO => TokenModel::CDO,
            Token::CDC => TokenModel::CDC,
            Token::Colon => TokenModel::Colon,
            Token::Semicolon => TokenModel::Semicolon,
            Token::Comma => TokenModel::Comma,
            Token::LeftSquareBracket => TokenModel::LeftSquareBracket,
            Token::RightSquareBracket => TokenModel::RightSquareBracket,
            Token::LeftParenthesis => TokenModel::LeftParenthesis,
            Token::RightParenthesis => TokenModel::RightParenthesis,
            Token::LeftCurlyBracket => TokenModel::LeftCurlyBracket,
            Token::RightCurlyBracket => TokenModel::RightCurlyBracket,
        }
    }
}

impl Clone for Token {
    fn clone(&self) -> (r: Self)
        ensures
            r@ == self@,
    {
        match self {
            Token::Ident(text) => Token::Ident(text.clone()),
            Token::Function(text) => Token::Function(text.clone()),
            Token::AtKeyword(text) => Token::AtKeyword(text.clone()),
            Token::Hash { is_id, value } => Token::Hash { is_id: *is_id, value: value.clone() },
            Token::String { value } => Token::String { value: value.clone() },
            Token::BadString => Token::BadString,
            Token::Url => Token::Url,
            Token::BadUrl => Token::BadUrl,
            Token::Delim(c) => Token::Delim(*c),
            Token::Number { value, is_integer } => Token::Number {
                value: value.clone(),
                is_integer: *is_integer,
            },
            Token::Percentage { value } => Token::Percentage { value: value.clone() },
            Token::Dimension { value, is_integer, unit } => Token::Dimension {
                value: value.clone(),
                is_integer: *is_integer,
                unit: unit.clone(),
            },
            Token::Whitespace(text) => Token::Whitespace(text.clone()),
            Token::CDO => Token::CDO,
            Token::CDC => Token::CDC,
            Token::Colon => Token::Colon,
            Token::Semicolon => Token::Semicolon,
            Token::Comma => Token::Comma,
            Token::LeftSquareBracket => Token::LeftSquareBracket,
            Token::RightSquareBracket => Token::RightSquareBracket,
            Token::LeftParenthesis => Token::LeftParenthesis,
            Token::RightParenthesis => Token::RightParenthesis,
            Token::LeftCurlyBracket => Token::LeftCurlyBracket,
            Token::RightCurlyBracket => Token::RightCurlyBracket,
        }
    }
}

/// What a sequence of tokens holds.
pub open spec fn tokens_view(tokens: Seq<Token>) -> Seq<TokenModel> {
    Seq::new(tokens.len(), |i: int| tokens[i]@)
}

/// A tokenizer: a text, and the position up to which it has been read.
pub struct Tokenizer {
    input: Vec<char>,
    position: usize,
}

impl Run {
    /// Whether `c` belongs to the class.
    pub fn holds(self, c: char) -> (r: bool)
        ensures
            r == self.spec_holds(c),
    {
        match self {
            Run::Whitespace => is_whitespace(c),
            Run::Digit => is_digit(c),
        }
    }
}

impl Tokenizer {
    /// The text.
    pub closed spec fn text(&self) -> Seq<char> {
        self.input@
    }

    /// The index of the next code point.
    pub closed spec fn pos(&self) -> int {
        self.position as int
    }

    /// The position lies within the text.
    pub closed spec fn wf(&self) -> bool {
        self.position <= self.input.len()
    }

    /// A tokenizer at the start of `input`.
    pub fn new(input: &str) -> (r: Tokenizer)
        ensures
            r.wf(),
            r.text() == input@,
            r.pos() == 0,
    {
        let mut chars: Vec<char> = Vec::new();
        for c in it: input.chars()
            invariant
                it.seq() == input@,
                chars@ == input@.subrange(0, it.index() as int),
        {
            proof {
                let k = it.index() as int;
                assert(input@.subrange(0, k).push(c) =~= input@.subrange(0, k + 1));
            }
            chars.push(c);
        }
        assert(chars@ =~= input@);
        Tokenizer { input: chars, position: 0 }
    }

    /// The position: the index of the next code point.
    pub fn position(&self) -> (r: usize)
        requires
            self.wf(),
        ensures
            r == self.pos(),
            r <= self.text().len(),
    {
        self.position
    }

    /// Goes forward by `dist` code points, or to the end of the text.
    pub fn advance(&mut self, dist: usize)
        requires
            old(self).wf(),
        ensures
            final(self).wf(),
            final(self).text() == old(self).text(),
            final(self).pos() == if old(self).pos() + dist <= old(self).text().len() {
                old(self).pos() + dist
            } else {
                old(self).text().len() as int
            },
    {
        let left = self.input.len() - self.position;
        if dist <= left {
            self.position = self.position + dist;
        } else {
            self.position = self.input.len();
        }
    }

    /// Takes the next code point, if there is one.
    pub fn consume(&mut self) -> (r: Option<char>)
        requires
            old(self).wf(),
        ensures
            final(self).wf(),
            final(self).text() == old(self).text(),
            r == rules::at(old(self).text(), old(self).pos()),
            final(self).pos() == if r is Some {
                old(self).pos() + 1
            } else {
                old(self).pos()
            },
    {
        if self.position < self.input.len() {
            let c = self.input[self.position];
            self.position = self.position + 1;
            Some(c)
        } else {
            None
        }
    }

    /// The code point that stands `dist` code points ahead.
    pub fn lookahead(&self, dist: usize) -> (r: Option<char>)
        requires
            self.wf(),
        ensures
            r == rules::at(self.text(), self.pos() + dist),
    {
        if dist < self.input.len() - self.position {
            Some(self.input[self.position + dist])
        } else {
            None
        }
    }

    /// The next two code points.
    pub fn lookahead_pair(&self) -> (r: (Option<char>, Option<char>))
        requires
            self.wf(),
        ensures
            r.0 == rules::at(self.text(), self.pos()),
            r.1 == rules::at(self.text(), self.pos() + 1),
    {
        (self.lookahead(0), self.lookahead(1))
    }

    /// The next three code points.
    pub fn lookahead_triple(&self) -> (r: (Option<char>, Option<char>, Option<char>))
        requires
            self.wf(),
        ensures
            r.0 == rules::at(self.text(), self.pos()),
            r.1 == rules::at(self.text(), self.pos() + 1),
            r.2 == rules::at(self.text(), self.pos() + 2),
    {
        (self.lookahead(0), self.lookahead(1), self.lookahead(2))
    }

    /// The text from `from` up to the position.
    fn slice(&self, from: usize) -> (r: String)
        requires
            self.wf(),
            from <= self.pos(),
        ensures
            r@ == self.text().subrange(from as int, self.pos()),
    {
        let mut text = String::new();
        let mut i = from;
        while i < self.position
            invariant
                from <= i <= self.position <= self.input.len(),
                text@ == self.input@.subrange(from as int, i as int),
            decreases self.position - i,
        {
            text.push(self.input[i]);
            proof {
                assert(self.input@.subrange(from as int, i as int).push(self.input@[i as int])
                    =~= self.input@.subrange(from as int, i + 1));
            }
            i += 1;
        }
        text
    }

    /// Goes forward over the run of `run` at the position.
    fn consume_run(&mut self, run: Run)
        requires
            old(self).wf(),
        ensures
            final(self).wf(),
            final(self).text() == old(self).text(),
            final(self).pos() == rules::run_end(old(self).text(), old(self).pos(), run),
            old(self).pos() <= final(self).pos(),
    {
        while self.position < self.input.len() && run.holds(self.input[self.position])
            invariant
                self.wf(),
                self.input@ == old(self).input@,
                old(self).position <= self.position,
                rules::run_end(old(self).text(), old(self).pos(), run) == rules::run_end(
                    self.text(),
                    self.pos(),
                    run,
                ),
            decreases self.input.len() - self.position,
        {
            self.position = self.position + 1;
        }
    }

    /// Goes forward over the digits at the position.
    pub fn consume_digits(&mut self)
        requires
            old(self).wf(),
        ensures
            final(self).wf(),
            final(self).text() == old(self).text(),
            final(self).pos() == rules::run_end(old(self).text(), old(self).pos(), Run::Digit),
            old(self).pos() <= final(self).pos(),
    {
        self.consume_run(Run::Digit)
    }

    /// How many code points of a name stand at the position.
    fn name_step(&self) -> (r: usize)
        requires
            self.wf(),
        ensures
            r == rules::name_step(self.text(), self.pos()),
            self.pos() + r <= self.text().len(),
    {
        match self.lookahead_pair() {
            (Some(c1), Some(c2)) => if is_name(c1) {
                1
            } else if is_valid_escape(c1, c2) {
                2
            } else {
                0
            },
            (Some(c1), None) => if is_name(c1) {
                1
            } else {
                0
            },
            _ => 0,
        }
    }

    /// Takes the name at the position, with the escapes in it.
    pub fn consume_name(&mut self) -> (r: String)
        requires
            old(self).wf(),
        ensures
            final(self).wf(),
            final(self).text() == old(self).text(),
            (r@, final(self).pos()) == rules::name_at(old(self).text(), old(self).pos()),
            old(self).pos() + rules::name_step(old(self).text(), old(self).pos())
                <= final(self).pos(),
    {
        proof {
            rules::lemma_name_end(self.text(), self.pos());
        }
        let start = self.position;
        let mut escaped = false;
        let mut width = self.name_step();
        while width > 0
            invariant
                self.wf(),
                self.input@ == old(self).input@,
                start == old(self).position,
                start <= self.position,
                width == rules::name_step(self.text(), self.pos()),
                rules::name_end(old(self).text(), old(self).pos()) == rules::name_end(
                    self.text(),
                    self.pos(),
                ),
                rules::name_escaped(old(self).text(), old(self).pos()) == (escaped
                    || rules::name_escaped(self.text(), self.pos())),
            decreases self.input.len() - self.position,
        {
            if width == 2 {
                escaped = true;
            }
            self.position = self.position + width;
            width = self.name_step();
        }
        let at_backslash = match self.lookahead(0) {
            Some('\\') => true,
            _ => false,
        };
        if escaped || at_backslash {
            "<ESCAPE CODEPOINTS>".to_owned()
        } else {
            self.slice(start)
        }
    }

    /// Takes the number at the position: its text, and whether it is an
    /// integer.
    pub fn consume_number(&mut self) -> (r: (String, bool))
        requires
            old(self).wf(),
        ensures
            final(self).wf(),
            final(self).text() == old(self).text(),
            (final(self).pos(), r.1) == rules::number_at(old(self).text(), old(self).pos()),
            r.0@ == old(self).text().subrange(old(self).pos(), final(self).pos()),
            old(self).pos() <= final(self).pos(),
    {
        let start = self.position;
        let mut is_integer = true;
        match self.lookahead(0) {
            Some('+') => {
                self.advance(1);
            },
            Some('-') => {
                self.advance(1);
            },
            _ => {},
        }
        self.consume_digits();
        match self.lookahead_pair() {
            (Some('.'), Some(c2)) => {
                if is_digit(c2) {
                    self.advance(2);
                    is_integer = false;
                    self.consume_digits();
                }
            },
            _ => {},
        }
        let exponent = match self.lookahead(0) {
            Some('e') => true,
            Some('E') => true,
            _ => false,
        };
        if exponent {
            match self.lookahead(1) {
                Some(c2) => {
                    if is_digit(c2) {
                        self.advance(1);
                        is_integer = false;
                        self.consume_digits();
                    } else if c2 == '+' || c2 == '-' {
                        match self.lookahead(2) {
                            Some(c3) => {
                                if is_digit(c3) {
                                    self.advance(3);
                                    is_integer = false;
                                    self.consume_digits();
                                }
                            },
                            None => {},
                        }
                    }
                },
                None => {},
            }
        }
        proof {
            let s = old(self).text();
            let i = old(self).pos();
            let p = if rules::at(s, i) == Some('+') || rules::at(s, i) == Some('-') {
                i + 1
            } else {
                i
            };
            rules::lemma_run_end(s, p, Run::Digit);
            let q = rules::run_end(s, p, Run::Digit);
            if q + 2 <= s.len() {
                rules::lemma_run_end(s, q + 2, Run::Digit);
            }
        }
        (self.slice(start), is_integer)
    }

    /// Takes what follows the opening quote of a string that `ending`
    /// closes: the text up to the closing quote, and the quote.
    pub fn consume_string_tail(&mut self, ending: char) -> (r: Option<String>)
        requires
            old(self).wf(),
        ensures
            final(self).wf(),
            final(self).text() == old(self).text(),
            (
                match r {
                    Some(value) => Some(value@),
                    None => None,
                },
                final(self).pos(),
            ) == rules::string_tail_at(old(self).text(), old(self).pos(), ending),
            old(self).pos() <= final(self).pos(),
    {
        let start = self.position;
        while self.position < self.input.len() && self.input[self.position] != ending
            && self.input[self.position] != '\n' && self.input[self.position] != '\\'
            invariant
                self.wf(),
                self.input@ == old(self).input@,
                start == old(self).position,
                start <= self.position,
                rules::string_stop(old(self).text(), old(self).pos(), ending) == rules::string_stop(
                    self.text(),
                    self.pos(),
                    ending,
                ),
            decreases self.input.len() - self.position,
        {
            self.position = self.position + 1;
        }
        match self.lookahead(0) {
            None => Some(self.slice(start)),
            Some(c) => {
                if c == ending {
                    let value = self.slice(start);
                    self.advance(1);
                    Some(value)
                } else if c == '\n' {
                    None
                } else {
                    Some("<ESCAPE CODEPOINTS>".to_owned())
                }
            },
        }
    }

    /// Takes the whitespace token at the position, where whitespace stands.
    fn consume_whitespace(&mut self) -> (r: Token)
        requires
            old(self).wf(),
            old(self).pos() < old(self).text().len(),
        ensures
            final(self).wf(),
            final(self).text() == old(self).text(),
            final(self).pos() == rules::run_end(
                old(self).text(),
                old(self).pos() + 1,
                Run::Whitespace,
            ),
            r@ == TokenModel::Whitespace(
                old(self).text().subrange(old(self).pos(), final(self).pos()),
            ),
            old(self).pos() < final(self).pos(),
    {
        let start = self.position;
        self.advance(1);
        self.consume_run(Run::Whitespace);
        Token::Whitespace(self.slice(start))
    }

    /// Takes the token that starts with the `#` at the position.
    fn consume_number_sign(&mut self) -> (r: Token)
        requires
            old(self).wf(),
            old(self).pos() < old(self).text().len(),
        ensures
            final(self).wf(),
            final(self).text() == old(self).text(),
            (r@, final(self).pos()) == rules::number_sign_at(old(self).text(), old(self).pos()),
            old(self).pos() < final(self).pos(),
    {
        self.advance(1);
        match self.lookahead_triple() {
            (Some(c1), Some(c2), Some(c3)) => {
                if is_name(c1) || is_valid_escape(c1, c2) {
                    let is_id = would_start_identifier(c1, c2, c3);
                    let value = self.consume_name();
                    Token::Hash { is_id, value }
                } else {
                    Token::Delim('#')
                }
            },
            _ => Token::Delim('#'),
        }
    }

    /// Takes the token that starts with the `+` at the position.
    fn consume_plus_sign(&mut self) -> (r: Token)
        requires
            old(self).wf(),
            rules::at(old(self).text(), old(self).pos()) == Some('+'),
        ensures
            final(self).wf(),
            final(self).text() == old(self).text(),
            (r@, final(self).pos()) == rules::sign_or_stop_at(old(self).text(), old(self).pos()),
            old(self).pos() < final(self).pos(),
    {
        match self.lookahead_triple() {
            (Some(c1), Some(c2), Some(c3)) => {
                if would_start_number(c1, c2, c3) {
                    return self.consume_numeric();
                }
            },
            _ => {},
        }
        self.advance(1);
        Token::Delim('+')
    }

    /// Takes the token that starts with the `-` at the position.
    fn consume_minus_sign(&mut self) -> (r: Token)
        requires
            old(self).wf(),
            rules::at(old(self).text(), old(self).pos()) == Some('-'),
        ensures
            final(self).wf(),
            final(self).text() == old(self).text(),
            (r@, final(self).pos()) == rules::minus_sign_at(old(self).text(), old(self).pos()),
            old(self).pos() < final(self).pos(),
    {
        let triple = self.lookahead_triple();
        match triple {
            (Some(c1), Some(c2), Some(c3)) => {
                if would_start_number(c1, c2, c3) {
                    return self.consume_numeric();
                }
            },
            _ => {},
        }
        match triple {
            (_, Some('-'), Some('>')) => {
                self.advance(3);
                return Token::CDC;
            },
            _ => {},
        }
        match triple {
            (Some(c1), Some(c2), Some(c3)) => {
                if would_start_identifier(c1, c2, c3) {
                    return self.consume_identlike();
                }
            },
            _ => {},
        }
        self.advance(1);
        Token::Delim('-')
    }

    /// Takes the token that starts with the `.` at the position.
    fn consume_full_stop(&mut self) -> (r: Token)
        requires
            old(self).wf(),
            rules::at(old(self).text(), old(self).pos()) == Some('.'),
        ensures
            final(self).wf(),
            final(self).text() == old(self).text(),
            (r@, final(self).pos()) == rules::sign_or_stop_at(old(self).text(), old(self).pos()),
            old(self).pos() < final(self).pos(),
    {
        match self.lookahead_triple() {
            (Some(c1), Some(c2), Some(c3)) => {
                if would_start_number(c1, c2, c3) {
                    return self.consume_numeric();
                }
            },
            _ => {},
        }
        self.advance(1);
        Token::Delim('.')
    }

    /// Takes the numeric token at the position, where a number starts: a
    /// digit, or a sign or `.` with the digits that make it start a number.
    fn consume_numeric(&mut self) -> (r: Token)
        requires
            old(self).wf(),
            rules::starts_number(old(self).text(), old(self).pos()),
        ensures
            final(self).wf(),
            final(self).text() == old(self).text(),
            (r@, final(self).pos()) == rules::numeric_at(old(self).text(), old(self).pos()),
            old(self).pos() < final(self).pos(),
    {
        proof {
            rules::lemma_number_advances(old(self).text(), old(self).pos());
        }
        let (value, is_integer) = self.consume_number();
        match self.lookahead_triple() {
            (Some(c1), Some(c2), Some(c3)) => {
                if would_start_identifier(c1, c2, c3) {
                    return Token::Dimension { value, is_integer, unit: self.consume_name() };
                }
            },
            _ => {},
        }
        match self.lookahead(0) {
            Some('%') => {
                self.advance(1);
                Token::Percentage { value }
            },
            _ => Token::Number { value, is_integer },
        }
    }

    /// Whether `text` is `url`, in any case.
    fn is_url(text: &String) -> (r: bool)
        ensures
            r == rules::is_url(text@),
    {
        let mut chars = text.as_str().chars();
        let c1 = chars.next();
        let c2 = chars.next();
        let c3 = chars.next();
        let c4 = chars.next();
        match (c1, c2, c3, c4) {
            (Some(a), Some(b), Some(c), None) => (a == 'u' || a == 'U') && (b == 'r' || b == 'R')
                && (c == 'l' || c == 'L'),
            _ => false,
        }
    }

    /// Whether two whitespace code points stand at the position.
    fn doubled_whitespace(&self) -> (r: bool)
        requires
            self.wf(),
        ensures
            r == (self.pos() + 1 < self.text().len() && helpers::spec_is_whitespace(
                self.text()[self.pos()],
            ) && helpers::spec_is_whitespace(self.text()[self.pos() + 1])),
    {
        match self.lookahead_pair() {
            (Some(c1), Some(c2)) => is_whitespace(c1) && is_whitespace(c2),
            _ => false,
        }
    }

    /// Whether `c` is a quote.
    fn is_quote(c: Option<char>) -> (r: bool)
        ensures
            r == rules::is_quote(c),
    {
        match c {
            Some('"') => true,
            Some('\'') => true,
            _ => false,
        }
    }

    /// Takes the identifier, function or URL at the position, where a name
    /// code point or a valid escape stands.
    fn consume_identlike(&mut self) -> (r: Token)
        requires
            old(self).wf(),
            rules::starts_name(old(self).text(), old(self).pos()),
        ensures
            final(self).wf(),
            final(self).text() == old(self).text(),
            (r@, final(self).pos()) == rules::identlike_at(old(self).text(), old(self).pos()),
            old(self).pos() < final(self).pos(),
    {
        let value = self.consume_name();
        match self.lookahead(0) {
            Some('(') => {
                if Self::is_url(&value) {
                    self.advance(1);
                    while self.doubled_whitespace()
                        invariant
                            self.wf(),
                            self.input@ == old(self).input@,
                            old(self).position <= self.position,
                            rules::name_at(old(self).text(), old(self).pos()).1 < self.pos(),
                            rules::skip_doubled_whitespace(
                                self.text(),
                                rules::name_at(old(self).text(), old(self).pos()).1 + 1,
                            ) == rules::skip_doubled_whitespace(self.text(), self.pos()),
                        decreases self.input.len() - self.position,
                    {
                        self.advance(1);
                    }
                    let pair = self.lookahead_pair();
                    let quoted = Self::is_quote(pair.0) || (match pair.0 {
                        Some(c) => is_whitespace(c),
                        None => false,
                    } && Self::is_quote(pair.1));
                    if quoted {
                        Token::Function(value)
                    } else {
                        self.consume_url()
                    }
                } else {
                    Token::Function(value)
                }
            },
            _ => Token::Ident(value),
        }
    }

    /// Takes the string token whose opening quote `ending` stands at the
    /// position.
    fn consume_string(&mut self, ending: char) -> (r: Token)
        requires
            old(self).wf(),
            old(self).pos() < old(self).text().len(),
        ensures
            final(self).wf(),
            final(self).text() == old(self).text(),
            (r@, final(self).pos()) == rules::string_at(old(self).text(), old(self).pos(), ending),
            old(self).pos() < final(self).pos(),
    {
        self.advance(1);
        match self.consume_string_tail(ending) {
            Some(value) => Token::String { value },
            None => Token::BadString,
        }
    }

    /// The URL token. Nothing of the URL is read.
    fn consume_url(&mut self) -> (r: Token)
        ensures
            *final(self) == *old(self),
            r@ == TokenModel::Url,
    {
        Token::Url
    }

    /// Takes the token at the position.
    fn consume_token(&mut self) -> (r: Option<Token>)
        requires
            old(self).wf(),
        ensures
            final(self).wf(),
            final(self).text() == old(self).text(),
            match r {
                Some(token) => old(self).pos() < old(self).text().len() && (
                    token@,
                    final(self).pos(),
                ) == rules::token_at(old(self).text(), old(self).pos()),
                None => old(self).pos() == old(self).text().len() && final(self).pos() == old(
                    self,
                ).pos(),
            },
            r is Some ==> old(self).pos() < final(self).pos(),
    {
        let c = match self.lookahead(0) {
            None => {
                return None;
            },
            Some(c) => c,
        };
        let token = if is_whitespace(c) {
            self.consume_whitespace()
        } else if c == '"' {
            self.consume_string('"')
        } else if c == '#' {
            self.consume_number_sign()
        } else if c == '\'' {
            self.consume_string('\'')
        } else if c == '(' {
            self.advance(1);
            Token::LeftParenthesis
        } else if c == ')' {
            self.advance(1);
            Token::RightParenthesis
        } else if c == '+' {
            self.consume_plus_sign()
        } else if c == ',' {
            self.advance(1);
            Token::Comma
        } else if c == '-' {
            self.consume_minus_sign()
        } else if c == '.' {
            self.consume_full_stop()
        } else if c == ':' {
            self.advance(1);
            Token::Colon
        } else if c == ';' {
            self.advance(1);
            Token::Semicolon
        } else if c == '<' {
            self.advance(1);
            match self.lookahead_triple() {
                (Some('!'), Some('-'), Some('-')) => Token::CDO,
                _ => Token::Delim('<'),
            }
        } else if c == '@' {
            self.advance(1);
            match self.lookahead_triple() {
                (Some(c1), Some(c2), Some(c3)) => {
                    if would_start_identifier(c1, c2, c3) {
                        Token::AtKeyword(self.consume_name())
                    } else {
                        Token::Delim('@')
                    }
                },
                _ => Token::Delim('@'),
            }
        } else if c == '[' {
            self.advance(1);
            Token::LeftSquareBracket
        } else if c == '\\' {
            match self.lookahead_pair() {
                (Some(c1), Some(c2)) => {
                    if is_valid_escape(c1, c2) {
                        self.consume_identlike()
                    } else {
                        self.advance(1);
                        Token::Delim('\\')
                    }
                },
                _ => {
                    self.advance(1);
                    Token::Delim('\\')
                },
            }
        } else if c == ']' {
            self.advance(1);
            Token::RightSquareBracket
        } else if c == '{' {
            self.advance(1);
            Token::LeftCurlyBracket
        } else if c == '}' {
            self.advance(1);
            Token::RightCurlyBracket
        } else if is_digit(c) {
            self.consume_numeric()
        } else if is_name_start(c) {
            self.consume_identlike()
        } else {
            self.advance(1);
            Token::Delim(c)
        };
        Some(token)
    }

    /// Takes the next token, which ends behind the position; `None` at the
    /// end of the text.
    pub fn next(&mut self) -> (r: Option<Token>)
        requires
            old(self).wf(),
        ensures
            final(self).wf(),
            final(self).text() == old(self).text(),
            match r {
                Some(token) => old(self).pos() < old(self).text().len() && (
                    token@,
                    final(self).pos(),
                ) == rules::token_at(old(self).text(), old(self).pos()),
                None => old(self).pos() == old(self).text().len() && final(self).pos() == old(
                    self,
                ).pos(),
            },
            r is Some ==> old(self).pos() < final(self).pos(),
    {
        self.consume_token()
    }

    /// Takes all the tokens that are left, up to the end of the text. They
    /// are no more than the code points that are left.
    pub fn collect(&mut self) -> (r: Vec<Token>)
        requires
            old(self).wf(),
        ensures
            final(self).wf(),
            final(self).text() == old(self).text(),
            final(self).pos() == old(self).text().len(),
            tokens_view(r@) == rules::tokens_from(old(self).text(), old(self).pos()),
            r.len() <= old(self).text().len() - old(self).pos(),
    {
        let mut found: Vec<Token> = Vec::new();
        assert(tokens_view(found@) =~= Seq::empty());
        loop
            invariant
                self.wf(),
                self.text() == old(self).text(),
                old(self).pos() <= self.pos(),
                found.len() <= self.pos() - old(self).pos(),
                rules::tokens_from(old(self).text(), old(self).pos()) == tokens_view(found@)
                    + rules::tokens_from(self.text(), self.pos()),
            decreases self.text().len() - self.pos(),
        {
            let ghost before = self.pos();
            match self.next() {
                None => {
                    assert(tokens_view(found@) + Seq::empty() =~= tokens_view(found@));
                    return found;
                },
                Some(token) => {
                    assert(tokens_view(found@.push(token)) + rules::tokens_from(
                        self.text(),
                        self.pos(),
                    ) =~= tokens_view(found@) + (seq![token@] + rules::tokens_from(
                        self.text(),
                        self.pos(),
                    )));
                    found.push(token);
                },
            }
        }
    }
}

} // verus!
