//! The first stage: from source text to spanned token trees.

use vstd::prelude::*;
use vstd::string::StringSliceAdditionalSpecFns;

pub mod helpers;
pub mod laws;
pub mod number;
pub mod relex;
pub mod rules;
pub mod scan;
pub mod source;

use source::SourceText;

verus! {

/// A range of bytes of the source text, from `start` up to `end`.
#[derive(Clone, Copy, Debug, PartialEq, Eq, Structural)]
pub struct Span {
    pub start: usize,
    pub end: usize,
}

impl Span {
    pub fn new(start: usize, end: usize) -> (span: Span)
        ensures
            span == (Span { start, end }),
    {
        Span { start, end }
    }
}

/// A value and the span of source text that it was read from.
pub type Spanned<T> = (T, Span);

/// The three kinds of brackets that group token trees.
#[derive(Clone, Copy, Debug, PartialEq, Eq, Structural)]
pub enum Delim {
    Paren,
    Brace,
    Bracket,
}

impl Delim {
    /// The opening bracket.
    pub open spec fn spec_open(&self) -> char {
        match self {
            Delim::Paren => '(',
            Delim::Brace => '{',
            Delim::Bracket => '[',
        }
    }

    /// The closing bracket.
    pub open spec fn spec_close(&self) -> char {
        match self {
            Delim::Paren => ')',
            Delim::Brace => '}',
            Delim::Bracket => ']',
        }
    }

    /// The opening bracket.
    #[verifier::when_used_as_spec(spec_open)]
    pub fn open(&self) -> (c: char)
        ensures
            c == self.spec_open(),
    {
        match self {
            Delim::Paren => '(',
            Delim::Brace => '{',
            Delim::Bracket => '[',
        }
    }

    /// The closing bracket.
    #[verifier::when_used_as_spec(spec_close)]
    pub fn close(&self) -> (c: char)
        ensures
            c == self.spec_close(),
    {
        match self {
            Delim::Paren => ')',
            Delim::Brace => '}',
            Delim::Bracket => ']',
        }
    }
}

/// Why a text could not be lexed. Each position is a byte offset.
#[derive(Clone, Copy, Debug, PartialEq, Eq, Structural)]
pub enum LexError {
    /// The string that opens at this position has no closing quote.
    UnterminatedString(usize),
    /// The group that opens at this position is not closed by its partner.
    UnmatchedOpen(Delim, usize),
    /// The closing bracket at this position closes no group.
    StrayClose(Delim, usize),
}

/// A numeric literal, taken apart: the digits of each part as written.
///
/// A part that the literal does not have is empty.
#[derive(Debug, PartialEq, Eq)]
pub struct Number {
    /// The literal starts with `-`.
    pub negative: bool,
    /// The digits before the point.
    pub integer: String,
    /// The digits after the point.
    pub fraction: String,
    /// The exponent has the sign `-`.
    pub exponent_negative: bool,
    /// The digits of the exponent.
    pub exponent: String,
}

/// What a [`Number`] holds.
pub struct NumberModel {
    pub negative: bool,
    pub integer: Seq<char>,
    pub fraction: Seq<char>,
    pub exponent_negative: bool,
    pub exponent: Seq<char>,
}

impl View for Number {
    type V = NumberModel;

    open spec fn view(&self) -> NumberModel {
        NumberModel {
            negative: self.negative,
            integer: self.integer@,
            fraction: self.fraction@,
            exponent_negative: self.exponent_negative,
            exponent: self.exponent@,
        }
    }
}

impl Clone for Number {
    fn clone(&self) -> (r: Self)
        ensures
            r@ == self@,
    {
        Number {
            negative: self.negative,
            integer: self.integer.clone(),
            fraction: self.fraction.clone(),
            exponent_negative: self.exponent_negative,
            exponent: self.exponent.clone(),
        }
    }
}

/// A token: a leaf of a token tree.
#[derive(Debug, PartialEq, Eq)]
pub enum Token {
    /// One or more whitespace characters.
    Whitespace,
    /// A comment, without its markers.
    Comment(String),
    /// An identifier.
    Ident(String),
    /// `#` and a name: the name.
    Hash(String),
    /// A quoted string: what stands between the quotes.
    String(String),
    /// A numeric literal.
    Number(Number),
    /// Any other single character.
    Symbol(char),
}

/// What a [`Token`] holds.
pub enum TokenModel {
    Whitespace,
    Comment(Seq<char>),
    Ident(Seq<char>),
    Hash(Seq<char>),
    String(Seq<char>),
    Number(NumberModel),
    Symbol(char),
}

impl View for Token {
    type V = TokenModel;

    open spec fn view(&self) -> TokenModel {
        match self {
            Token::Whitespace => TokenModel::Whitespace,
            Token::Comment(text) => TokenModel::Comment(text@),
            Token::Ident(text) => TokenModel::Ident(text@),
            Token::Hash(text) => TokenModel::Hash(text@),
            Token::String(text) => TokenModel::String(text@),
            Token::Number(number) => TokenModel::Number(number@),
            Token::Symbol(c) => TokenModel::Symbol(*c),
        }
    }
}

impl Clone for Token {
    fn clone(&self) -> (r: Self)
        ensures
            r@ == self@,
    {
        match self {
            Token::Whitespace => Token::Whitespace,
            Token::Comment(text) => Token::Comment(text.clone()),
            Token::Ident(text) => Token::Ident(text.clone()),
            Token::Hash(text) => Token::Hash(text.clone()),
            Token::String(text) => Token::String(text.clone()),
            Token::Number(number) => Token::Number(number.clone()),
            Token::Symbol(c) => Token::Symbol(*c),
        }
    }
}

/// A token, or a group of token trees between matching brackets.
#[derive(Debug, PartialEq, Eq)]
pub enum TokenTree {
    Token(Token),
    Tree(Delim, Vec<Spanned<TokenTree>>),
}

/// What a [`TokenTree`] holds.
pub enum TreeModel {
    Token(TokenModel),
    Tree(Delim, Seq<(TreeModel, Span)>),
}

/// What a token tree holds.
pub open spec fn tree_model(tree: TokenTree) -> TreeModel
    decreases tree,
{
    match tree {
        TokenTree::Token(token) => TreeModel::Token(token@),
        TokenTree::Tree(delim, items) => TreeModel::Tree(
            delim,
            trees_model(items@, items@.len()),
        ),
    }
}

/// What the first `n` of a sequence of spanned token trees hold.
pub open spec fn trees_model(items: Seq<Spanned<TokenTree>>, n: nat) -> Seq<(TreeModel, Span)>
    decreases items, n,
{
    if n == 0 || n > items.len() {
        Seq::empty()
    } else {
        trees_model(items, (n - 1) as nat).push((tree_model(items[n - 1].0), items[n - 1].1))
    }
}

impl View for TokenTree {
    type V = TreeModel;

    open spec fn view(&self) -> TreeModel {
        tree_model(*self)
    }
}

/// What a sequence of spanned token trees holds.
pub open spec fn trees_view(items: Seq<Spanned<TokenTree>>) -> Seq<(TreeModel, Span)> {
    Seq::new(items.len(), |i: int| (items[i].0@, items[i].1))
}

/// `trees_model` goes through the sequence item by item.
pub proof fn lemma_trees_model(items: Seq<Spanned<TokenTree>>, n: nat)
    requires
        n <= items.len(),
    ensures
        trees_model(items, n) == trees_view(items.subrange(0, n as int)),
    decreases n,
{
    if n > 0 {
        lemma_trees_model(items, (n - 1) as nat);
        assert(trees_view(items.subrange(0, n - 1)).push((items[n - 1].0@, items[n - 1].1))
            =~= trees_view(items.subrange(0, n as int)));
    } else {
        assert(trees_model(items, n) =~= trees_view(items.subrange(0, n as int)));
    }
}

/// The view of a group is the group of the views.
pub proof fn lemma_tree_view(delim: Delim, items: Vec<Spanned<TokenTree>>)
    ensures
        TokenTree::Tree(delim, items)@ == TreeModel::Tree(delim, trees_view(items@)),
{
    lemma_trees_model(items@, items@.len());
    assert(items@.subrange(0, items@.len() as int) =~= items@);
}

/// A copy of a sequence of token trees.
pub fn clone_trees(items: &[Spanned<TokenTree>]) -> (r: Vec<Spanned<TokenTree>>)
    ensures
        trees_view(r@) == trees_view(items@),
    decreases items@,
{
    let mut out: Vec<Spanned<TokenTree>> = Vec::new();
    let mut i: usize = 0;
    while i < items.len()
        invariant
            i <= items.len(),
            out.len() == i,
            forall|k: int| 0 <= k < i ==> out[k].0@ == items[k].0@ && out[k].1 == items[k].1,
        decreases items.len() - i,
    {
        let tree = items[i].0.clone();
        out.push((tree, items[i].1));
        i += 1;
    }
    assert(trees_view(out@) =~= trees_view(items@));
    out
}

impl Clone for TokenTree {
    fn clone(&self) -> (r: Self)
        ensures
            r@ == self@,
        decreases self,
    {
        match self {
            TokenTree::Token(token) => TokenTree::Token(token.clone()),
            TokenTree::Tree(delim, items) => {
                let copy = clone_trees(items.as_slice());
                proof {
                    lemma_tree_view(*delim, copy);
                    lemma_tree_view(*delim, *items);
                }
                TokenTree::Tree(*delim, copy)
            },
        }
    }
}

/// The delimiter that `c` opens.
fn opening(c: char) -> (r: Option<Delim>)
    ensures
        r == rules::opening_delim(c),
{
    if c == '(' {
        Some(Delim::Paren)
    } else if c == '{' {
        Some(Delim::Brace)
    } else if c == '[' {
        Some(Delim::Bracket)
    } else {
        None
    }
}

/// The delimiter that `c` closes.
fn closing(c: char) -> (r: Option<Delim>)
    ensures
        r == rules::closing_delim(c),
{
    if c == ')' {
        Some(Delim::Paren)
    } else if c == '}' {
        Some(Delim::Brace)
    } else if c == ']' {
        Some(Delim::Bracket)
    } else {
        None
    }
}

/// The outcome `r` of a sequence, with the trees of `prefix` put in front.
pub open spec fn prepend(
    prefix: Seq<(TreeModel, Span)>,
    r: Result<(Seq<(TreeModel, Span)>, int, Option<Delim>), LexError>,
) -> Result<(Seq<(TreeModel, Span)>, int, Option<Delim>), LexError> {
    match r {
        Err(e) => Err(e),
        Ok((rest, stop, closer)) => Ok((prefix + rest, stop, closer)),
    }
}

proof fn lemma_prepend_push(
    prefix: Seq<(TreeModel, Span)>,
    item: (TreeModel, Span),
    r: Result<(Seq<(TreeModel, Span)>, int, Option<Delim>), LexError>,
)
    ensures
        prepend(prefix, prepend(seq![item], r)) == prepend(prefix.push(item), r),
{
    match r {
        Err(_) => {},
        Ok((rest, _, _)) => {
            assert(prefix + (seq![item] + rest) =~= prefix.push(item) + rest);
        },
    }
}

/// The token tree that starts at `i`, and where it ends.
fn lex_tree(src: &SourceText, i: usize) -> (r: Result<(Spanned<TokenTree>, usize), LexError>)
    requires
        src.wf(),
        i < src@.len(),
    ensures
        match r {
            Ok((tree, end)) => rules::lex_tree(src@, i as int) == Ok::<
                ((TreeModel, Span), int),
                LexError,
            >(((tree.0@, tree.1), end as int)) && i < end <= src@.len(),
            Err(e) => rules::lex_tree(src@, i as int) == Err::<((TreeModel, Span), int), LexError>(
                e,
            ),
        },
    decreases src@.len() - i, 0int,
{
    let n = src.len();
    let c = src.get(i);
    match opening(c) {
        Some(delim) => match lex_seq(src, i + 1) {
            Err(e) => Err(e),
            Ok((items, stop, closer)) => {
                let closed = match closer {
                    Some(d) => d == delim,
                    None => false,
                };
                if closed {
                    let span = Span { start: src.offset(i), end: src.offset(stop + 1) };
                    proof {
                        lemma_tree_view(delim, items);
                    }
                    Ok(((TokenTree::Tree(delim, items), span), stop + 1))
                } else {
                    Err(LexError::UnmatchedOpen(delim, src.offset(i)))
                }
            },
        },
        None => match scan::scan_token(src, i) {
            Err(e) => Err(e),
            Ok((token, end)) => {
                let span = Span { start: src.offset(i), end: src.offset(end) };
                Ok(((TokenTree::Token(token), span), end))
            },
        },
    }
}

/// The token trees from `start` up to the first closing delimiter that
/// belongs to none of them, or up to the end of the text.
fn lex_seq(src: &SourceText, start: usize) -> (r: Result<
    (Vec<Spanned<TokenTree>>, usize, Option<Delim>),
    LexError,
>)
    requires
        src.wf(),
        start <= src@.len(),
    ensures
        match r {
            Ok((items, stop, closer)) => rules::lex_seq(src@, start as int) == Ok::<
                (Seq<(TreeModel, Span)>, int, Option<Delim>),
                LexError,
            >((trees_view(items@), stop as int, closer)) && start <= stop <= src@.len() && (
            closer is Some ==> stop < src@.len()),
            Err(e) => rules::lex_seq(src@, start as int) == Err::<
                (Seq<(TreeModel, Span)>, int, Option<Delim>),
                LexError,
            >(e),
        },
    decreases src@.len() - start, 1int,
{
    let n = src.len();
    let mut items: Vec<Spanned<TokenTree>> = Vec::new();
    let mut i = start;
    proof {
        assert(trees_view(items@) =~= Seq::empty());
        match rules::lex_seq(src@, start as int) {
            Err(_) => {},
            Ok((rest, _, _)) => {
                assert(Seq::<(TreeModel, Span)>::empty() + rest =~= rest);
            },
        }
    }
    loop
        invariant
            src.wf(),
            n == src@.len(),
            start <= i <= n,
            rules::lex_seq(src@, start as int) == prepend(
                trees_view(items@),
                rules::lex_seq(src@, i as int),
            ),
        decreases n - i,
    {
        if i >= n {
            proof {
                assert(trees_view(items@) + Seq::empty() =~= trees_view(items@));
            }
            return Ok((items, n, None));
        }
        let c = src.get(i);
        match closing(c) {
            Some(delim) => {
                proof {
                    assert(trees_view(items@) + Seq::empty() =~= trees_view(items@));
                }
                return Ok((items, i, Some(delim)));
            },
            None => {},
        }
        match lex_tree(src, i) {
            Err(e) => {
                return Err(e);
            },
            Ok((tree, end)) => {
                proof {
                    lemma_prepend_push(
                        trees_view(items@),
                        (tree.0@, tree.1),
                        rules::lex_seq(src@, end as int),
                    );
                    assert(trees_view(items@.push(tree)) =~= trees_view(items@).push(
                        (tree.0@, tree.1),
                    ));
                }
                items.push(tree);
                i = end;
            },
        }
    }
}

/// Lexes `input` into spanned token trees.
///
/// Whitespace and comments come out as tokens. Every group of the result
/// reaches from an opening bracket to its partner; a text in which the
/// brackets do not match, or a string is left open, is rejected with the
/// first such fault.
pub fn lexer(input: &str) -> (r: Result<Vec<Spanned<TokenTree>>, LexError>)
    ensures
        match r {
            Ok(trees) => rules::lex(input@) == Ok::<Seq<(TreeModel, Span)>, LexError>(
                trees_view(trees@),
            ),
            Err(e) => rules::lex(input@) == Err::<Seq<(TreeModel, Span)>, LexError>(e),
        },
        r matches Ok(trees) ==> laws::contiguous(
            trees_view(trees@),
            0,
            0,
            input.spec_bytes().len() as int,
        ) && laws::balanced(input.spec_bytes(), trees_view(trees@), 0),
{
    let src = SourceText::new(input);
    proof {
        laws::lemma_spans_cover(input@);
        laws::lemma_trees_balanced(input@);
    }
    match lex_seq(&src, 0) {
        Err(e) => Err(e),
        Ok((items, stop, closer)) => match closer {
            None => Ok(items),
            Some(delim) => Err(LexError::StrayClose(delim, src.offset(stop))),
        },
    }
}

} // verus!
