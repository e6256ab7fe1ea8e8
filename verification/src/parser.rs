//! The second stage: from token trees to items.

use crate::ast::selector::SimpleSelector;
use crate::ast::{
    items_view, lemma_block_model, AtRule, Call, Declaration, DeclarationName, FunctionCall,
    GenericAtRule, GenericRule, Item, ItemModel, ListOfComponentValues, ListOfItems, MixinCall,
    MixinRule, QualifiedRule, StyleRule, Stylesheet, VariableCall,
};
use crate::lexer::{
    lemma_tree_view, trees_view, Delim, LexError, Span, Spanned, Token, TokenTree,
};
use rules::TreeClass;
use vstd::prelude::*;
use vstd::string::StringSliceAdditionalSpecFns;

pub mod expression;
pub mod laws;
pub mod mixin;
pub mod rules;
pub mod selector;
pub mod string;

verus! {

/// The kinds of errors.
#[derive(Clone, Copy, Debug, PartialEq, Eq, Structural)]
pub enum ErrorKind {
    /// A string has no closing quote.
    UnterminatedString,
    /// A group is not closed by the partner of its opening bracket.
    UnmatchedOpenDelimiter,
    /// A closing bracket closes no group.
    StrayCloseDelimiter,
    /// A block is missing.
    ExpectedBlock,
    /// A `;` is missing.
    ExpectedSemicolon,
    /// A token stands where it cannot.
    UnexpectedToken,
    /// The brackets of a lookup hold something else than one key.
    UnbalancedLookup,
    /// An argument is missing after a separator.
    EmptyArgument,
    /// No item has this shape.
    UnknownItemShape,
    /// An interpolation in a string is not closed.
    UnterminatedInterpolation,
    /// An expression is missing.
    EmptyExpression,
    /// An operator has no operand after it.
    InvalidOperator,
}

impl ErrorKind {
    /// What the kind of error says, in words.
    pub open spec fn spec_description(self) -> &'static str {
        match self {
            ErrorKind::UnterminatedString => "a string has no closing quote",
            ErrorKind::UnmatchedOpenDelimiter => "an opening bracket has no partner",
            ErrorKind::StrayCloseDelimiter => "a closing bracket closes nothing",
            ErrorKind::ExpectedBlock => "a block is missing",
            ErrorKind::ExpectedSemicolon => "a semicolon is missing",
            ErrorKind::UnexpectedToken => "a token stands where it cannot",
            ErrorKind::UnbalancedLookup => "a lookup holds something else than one key",
            ErrorKind::EmptyArgument => "an argument is missing",
            ErrorKind::UnknownItemShape => "no item has this shape",
            ErrorKind::UnterminatedInterpolation => "an interpolation is not closed",
            ErrorKind::EmptyExpression => "an expression is missing",
            ErrorKind::InvalidOperator => "an operator has no operand",
        }
    }

    /// What the kind of error says, in words.
    #[verifier::when_used_as_spec(spec_description)]
    pub fn description(self) -> (r: &'static str)
        ensures
            r == self.spec_description(),
    {
        match self {
            ErrorKind::UnterminatedString => "a string has no closing quote",
            ErrorKind::UnmatchedOpenDelimiter => "an opening bracket has no partner",
            ErrorKind::StrayCloseDelimiter => "a closing bracket closes nothing",
            ErrorKind::ExpectedBlock => "a block is missing",
            ErrorKind::ExpectedSemicolon => "a semicolon is missing",
            ErrorKind::UnexpectedToken => "a token stands where it cannot",
            ErrorKind::UnbalancedLookup => "a lookup holds something else than one key",
            ErrorKind::EmptyArgument => "an argument is missing",
            ErrorKind::UnknownItemShape => "no item has this shape",
            ErrorKind::UnterminatedInterpolation => "an interpolation is not closed",
            ErrorKind::EmptyExpression => "an expression is missing",
            ErrorKind::InvalidOperator => "an operator has no operand",
        }
    }
}

/// An error: its kind, the span of source text at which it was found, and
/// for a missing block or `;` the span at which the item starts that lacks
/// it.
#[derive(Clone, Copy, Debug, PartialEq, Eq)]
pub struct ParseError {
    pub kind: ErrorKind,
    pub span: Span,
    pub secondary: Option<Span>,
}

/// The span of the one byte at `pos`.
pub open spec fn spec_byte_span(pos: usize) -> Span {
    Span {
        start: pos,
        end: if pos < usize::MAX {
            (pos + 1) as usize
        } else {
            pos
        },
    }
}

/// What an error of the lexer is as an error of the parser: the same fault,
/// at the span of the character that the lexer points at.
pub open spec fn spec_lex_error(e: LexError) -> ParseError {
    match e {
        LexError::UnterminatedString(pos) => rules::error(
            ErrorKind::UnterminatedString,
            spec_byte_span(pos),
        ),
        LexError::UnmatchedOpen(_, pos) => rules::error(
            ErrorKind::UnmatchedOpenDelimiter,
            spec_byte_span(pos),
        ),
        LexError::StrayClose(_, pos) => rules::error(
            ErrorKind::StrayCloseDelimiter,
            spec_byte_span(pos),
        ),
    }
}

/// The span of the one byte at `pos`.
fn byte_span(pos: usize) -> (span: Span)
    ensures
        span == spec_byte_span(pos),
{
    Span {
        start: pos,
        end: if pos < usize::MAX {
            pos + 1
        } else {
            pos
        },
    }
}

/// An error of the lexer as an error of the parser.
pub fn lex_error(e: LexError) -> (r: ParseError)
    ensures
        r == spec_lex_error(e),
{
    match e {
        LexError::UnterminatedString(pos) => error(ErrorKind::UnterminatedString, byte_span(pos)),
        LexError::UnmatchedOpen(_, pos) => error(
            ErrorKind::UnmatchedOpenDelimiter,
            byte_span(pos),
        ),
        LexError::StrayClose(_, pos) => error(ErrorKind::StrayCloseDelimiter, byte_span(pos)),
    }
}

/// An error of kind `kind` at `span`.
pub fn error(kind: ErrorKind, span: Span) -> (e: ParseError)
    ensures
        e == rules::error(kind, span),
{
    ParseError { kind, span, secondary: None }
}

/// An error of kind `kind` at `span`, found in what starts at `start`.
pub fn error_in(kind: ErrorKind, span: Span, start: Span) -> (e: ParseError)
    ensures
        e == rules::error_in(kind, span, start),
{
    ParseError { kind, span, secondary: Some(start) }
}

/// Whether `text` is the keyword.
pub fn text_is(text: &String, keyword: &str) -> (r: bool)
    ensures
        r == (text@ == keyword@),
{
    let a = text.as_str().as_bytes();
    let b = keyword.as_bytes();
    proof {
        vstd::utf8::encode_utf8_decode_utf8(text@);
        vstd::utf8::encode_utf8_decode_utf8(keyword@);
    }
    if a.len() != b.len() {
        return false;
    }
    let mut i: usize = 0;
    while i < a.len()
        invariant
            i <= a.len() == b.len(),
            a@ == vstd::utf8::encode_utf8(text@),
            b@ == vstd::utf8::encode_utf8(keyword@),
            forall|k: int| 0 <= k < i ==> a@[k] == b@[k],
        decreases a.len() - i,
    {
        if a[i] != b[i] {
            return false;
        }
        i += 1;
    }
    assert(a@ =~= b@);
    true
}

/// Whether `tree` is the symbol `c`.
pub fn is_symbol(tree: &TokenTree, c: char) -> (r: bool)
    ensures
        r == rules::is_symbol(tree@, c),
{
    match tree {
        TokenTree::Token(Token::Symbol(s)) => *s == c,
        _ => false,
    }
}

/// Whether `tree` is the identifier `keyword`.
pub fn is_ident(tree: &TokenTree, keyword: &str) -> (r: bool)
    ensures
        r == rules::is_ident(tree@, keyword@),
{
    match tree {
        TokenTree::Token(Token::Ident(text)) => text_is(text, keyword),
        _ => false,
    }
}

impl TreeClass {
    /// Whether `tree` belongs to the class.
    pub fn holds(self, tree: &TokenTree) -> (r: bool)
        ensures
            r == self.spec_holds(tree@),
    {
        match self {
            TreeClass::Junk => match tree {
                TokenTree::Token(Token::Whitespace) => true,
                TokenTree::Token(Token::Comment(_)) => true,
                _ => false,
            },
            TreeClass::NotSemicolon => !is_symbol(tree, ';'),
            TreeClass::NotTerminator => !is_symbol(tree, ';') && match tree {
                TokenTree::Tree(Delim::Brace, _) => false,
                _ => true,
            },
        }
    }
}

/// Where the longest run of `class` that starts at `start` ends.
pub fn scan(tts: &[Spanned<TokenTree>], start: usize, class: TreeClass) -> (end: usize)
    requires
        start <= tts.len(),
    ensures
        end == rules::run_end(trees_view(tts@), start as int, class),
        start <= end <= tts.len(),
{
    let n = tts.len();
    let mut i = start;
    while i < n && class.holds(&tts[i].0)
        invariant
            start <= i <= n,
            n == tts.len(),
            rules::run_end(trees_view(tts@), start as int, class) == rules::run_end(
                trees_view(tts@),
                i as int,
                class,
            ),
        decreases n - i,
    {
        i += 1;
    }
    i
}

/// The first index from `start` on that holds no whitespace and no comment.
pub fn junk(tts: &[Spanned<TokenTree>], start: usize) -> (end: usize)
    requires
        start <= tts.len(),
    ensures
        end == rules::skip_junk(trees_view(tts@), start as int),
        start <= end <= tts.len(),
{
    scan(tts, start, TreeClass::Junk)
}

/// The end of the range from `from` to `to` without the whitespace and the
/// comments at its end.
pub fn strip_trailing_junk(tts: &[Spanned<TokenTree>], from: usize, to: usize) -> (end: usize)
    requires
        from <= to <= tts.len(),
    ensures
        end == rules::trim_end(trees_view(tts@), from as int, to as int),
        from <= end <= to,
{
    let mut end = to;
    while end > from && TreeClass::Junk.holds(&tts[end - 1].0)
        invariant
            from <= end <= to <= tts.len(),
            rules::trim_end(trees_view(tts@), from as int, to as int) == rules::trim_end(
                trees_view(tts@),
                from as int,
                end as int,
            ),
        decreases end - from,
    {
        end -= 1;
    }
    end
}

/// A copy of the trees from `from` up to `to`.
pub fn copy(tts: &[Spanned<TokenTree>], from: usize, to: usize) -> (r: ListOfComponentValues)
    requires
        from <= to <= tts.len(),
    ensures
        r@ == trees_view(tts@).subrange(from as int, to as int),
{
    let mut out: Vec<Spanned<TokenTree>> = Vec::new();
    let mut i = from;
    while i < to
        invariant
            from <= i <= to <= tts.len(),
            out.len() == i - from,
            forall|k: int|
                0 <= k < out.len() ==> out[k].0@ == tts[from + k].0@ && out[k].1 == tts[from + k].1,
        decreases to - i,
    {
        let tree = tts[i].0.clone();
        out.push((tree, tts[i].1));
        i += 1;
    }
    assert(trees_view(out@) =~= trees_view(tts@).subrange(from as int, to as int));
    ListOfComponentValues(out)
}

/// A copy of the trees from `from` up to `to`, without the junk at the ends.
pub fn trimmed(tts: &[Spanned<TokenTree>], from: usize, to: usize) -> (r: ListOfComponentValues)
    requires
        from <= to <= tts.len(),
    ensures
        r@ == rules::trimmed(trees_view(tts@), from as int, to as int),
{
    let skipped = junk(tts, from);
    let start = if skipped < to {
        skipped
    } else {
        to
    };
    let end = strip_trailing_junk(tts, start, to);
    copy(tts, start, end)
}

/// Whether the symbol `c` stands at `i`.
pub fn symbol(tts: &[Spanned<TokenTree>], i: usize, c: char) -> (r: bool)
    ensures
        r == rules::symbol_at(trees_view(tts@), i as int, c),
        r ==> i < tts.len(),
{
    i < tts.len() && is_symbol(&tts[i].0, c)
}

/// The text of the identifier that stands at `i`.
pub fn ident(tts: &[Spanned<TokenTree>], i: usize) -> (r: Option<&String>)
    ensures
        match r {
            Some(text) => rules::ident_at(trees_view(tts@), i as int) == Some(text@) && i
                < tts.len(),
            None => rules::ident_at(trees_view(tts@), i as int) is None,
        },
{
    if i < tts.len() {
        match &tts[i].0 {
            TokenTree::Token(Token::Ident(text)) => Some(text),
            _ => None,
        }
    } else {
        None
    }
}

/// The name that stands at `i` behind an `@`.
pub fn at_ident(tts: &[Spanned<TokenTree>], i: usize) -> (r: Option<&String>)
    ensures
        match r {
            Some(text) => rules::symbol_at(trees_view(tts@), i as int, '@') && rules::ident_at(
                trees_view(tts@),
                i + 1,
            ) == Some(text@) && i + 1 < tts.len(),
            None => !(rules::symbol_at(trees_view(tts@), i as int, '@') && rules::ident_at(
                trees_view(tts@),
                i + 1,
            ) is Some),
        },
{
    if i < tts.len() && is_symbol(&tts[i].0, '@') {
        ident(tts, i + 1)
    } else {
        None
    }
}

/// The name of the hash that stands at `i`.
pub fn hash(tts: &[Spanned<TokenTree>], i: usize) -> (r: Option<&String>)
    ensures
        match r {
            Some(text) => rules::hash_at(trees_view(tts@), i as int) == Some(text@) && i
                < tts.len(),
            None => rules::hash_at(trees_view(tts@), i as int) is None,
        },
{
    if i < tts.len() {
        match &tts[i].0 {
            TokenTree::Token(Token::Hash(text)) => Some(text),
            _ => None,
        }
    } else {
        None
    }
}

/// The content of the group in `delim` that stands at `i`.
pub fn group(tts: &[Spanned<TokenTree>], i: usize, delim: Delim) -> (r: Option<
    &Vec<Spanned<TokenTree>>,
>)
    ensures
        match r {
            Some(content) => rules::group_at(trees_view(tts@), i as int, delim) == Some(
                trees_view(content@),
            ) && i < tts.len() && decreases_to!(tts@ => content@),
            None => rules::group_at(trees_view(tts@), i as int, delim) is None,
        },
{
    if i < tts.len() {
        match &tts[i].0 {
            TokenTree::Tree(d, content) => {
                if *d == delim {
                    proof {
                        lemma_tree_view(*d, *content);
                        assert(decreases_to!(tts@ => tts@[i as int]));
                        assert(decreases_to!(tts@[i as int] => tts@[i as int].0));
                        assert(decreases_to!(tts@[i as int].0 => tts@[i as int].0->Tree_1));
                        assert(decreases_to!(tts@[i as int].0->Tree_1 => content@));
                    }
                    Some(content)
                } else {
                    None
                }
            },
            _ => None,
        }
    } else {
        None
    }
}

/// What the outcome of reading one item holds.
pub open spec fn item_result(r: Result<(Item, usize), ParseError>) -> Result<
    (ItemModel, int),
    ParseError,
> {
    match r {
        Ok((item, end)) => Ok((item@, end as int)),
        Err(e) => Err(e),
    }
}

/// What the outcome of reading a list of items holds.
pub open spec fn items_result(r: Result<ListOfItems, ParseError>) -> Result<
    Seq<(ItemModel, Span)>,
    ParseError,
> {
    match r {
        Ok(items) => Ok(items@),
        Err(e) => Err(e),
    }
}

/// The span of the tree at `i`, or of the end of the sequence.
pub fn span_at(tts: &[Spanned<TokenTree>], i: usize) -> (span: Span)
    ensures
        span == rules::span_at(trees_view(tts@), i as int),
{
    let n = tts.len();
    if i < n {
        tts[i].1
    } else if n == 0 {
        Span { start: 0, end: 0 }
    } else {
        Span { start: tts[n - 1].1.end, end: tts[n - 1].1.end }
    }
}

/// The declaration whose name has been read and whose `:` stands before
/// `after_colon`, and where it ends.
pub fn declaration(tts: &[Spanned<TokenTree>], name: DeclarationName, after_colon: usize) -> (r: (
    Item,
    usize,
))
    requires
        after_colon <= tts.len(),
    ensures
        (r.0@, r.1 as int) == rules::declaration(trees_view(tts@), name@, after_colon as int),
        after_colon <= r.1 <= tts.len(),
{
    let n = tts.len();
    let start = junk(tts, after_colon);
    let stop = scan(tts, start, TreeClass::NotSemicolon);
    let trimmed_end = strip_trailing_junk(tts, start, stop);
    let mut important = false;
    let mut end = trimmed_end;
    if trimmed_end > start && is_ident(&tts[trimmed_end - 1].0, "important") {
        let bang = strip_trailing_junk(tts, start, trimmed_end - 1);
        if bang > start && is_symbol(&tts[bang - 1].0, '!') {
            important = true;
            end = strip_trailing_junk(tts, start, bang - 1);
        }
    }
    let value = copy(tts, start, end);
    let item = Item::Declaration(Declaration { name, value, important });
    (
        item,
        if stop < n {
            stop + 1
        } else {
            stop
        },
    )
}

/// The block of items that the content of a group in braces holds.
fn block(content: &Vec<Spanned<TokenTree>>) -> (r: Result<ListOfItems, ParseError>)
    ensures
        items_result(r) == rules::list_of_items(trees_view(content@), 0),
    decreases content@, content@.len() + 1, 2int,
{
    list_of_items(content.as_slice(), 0)
}

/// The at-rule `@name` whose prelude starts at `from`, and where it ends.
pub fn at_rule(tts: &[Spanned<TokenTree>], name: String, from: usize) -> (r: Result<
    (Item, usize),
    ParseError,
>)
    requires
        from <= tts.len(),
    ensures
        item_result(r) == rules::at_rule(trees_view(tts@), name@, from as int),
        r matches Ok((_, end)) ==> from <= end <= tts.len(),
    decreases tts@, 0int, 0int,
{
    let n = tts.len();
    let h = scan(tts, from, TreeClass::NotTerminator);
    let prelude = trimmed(tts, from, h);
    if h < n {
        match group(tts, h, Delim::Brace) {
            Some(content) => match block(content) {
                Err(e) => Err(e),
                Ok(items) => {
                    proof {
                        lemma_block_model(items);
                    }
                    Ok(
                        (
                            Item::AtRule(
                                AtRule::Generic(GenericAtRule { name, prelude, block: Some(items) }),
                            ),
                            h + 1,
                        ),
                    )
                },
            },
            None => Ok(
                (Item::AtRule(AtRule::Generic(GenericAtRule { name, prelude, block: None })), h + 1),
            ),
        }
    } else {
        Ok((Item::AtRule(AtRule::Generic(GenericAtRule { name, prelude, block: None })), h))
    }
}

/// Where the selector segment that starts at `i` ends.
fn segment_end(tts: &[Spanned<TokenTree>], i: usize) -> (r: Option<usize>)
    ensures
        match r {
            Some(end) => rules::mixin_segment(trees_view(tts@), i as int) matches Some((_, e))
                && e == end && i < end <= tts.len(),
            None => rules::mixin_segment(trees_view(tts@), i as int) is None,
        },
{
    let n = tts.len();
    if i < n && is_symbol(&tts[i].0, '.') && ident(tts, i + 1).is_some() {
        Some(i + 2)
    } else if hash(tts, i).is_some() {
        Some(i + 1)
    } else {
        None
    }
}

/// One segment of the selector of a mixin at `i`, and where it ends.
pub fn mixin_segment(tts: &[Spanned<TokenTree>], i: usize) -> (r: Option<(SimpleSelector, usize)>)
    ensures
        match r {
            Some((selector, end)) => rules::mixin_segment(trees_view(tts@), i as int) == Some(
                (selector@, end as int),
            ) && i < end <= tts.len(),
            None => rules::mixin_segment(trees_view(tts@), i as int) is None,
        },
{
    let n = tts.len();
    if i < n && is_symbol(&tts[i].0, '.') {
        match ident(tts, i + 1) {
            Some(name) => Some((SimpleSelector::Class(name.clone()), i + 2)),
            None => match hash(tts, i) {
                Some(name) => Some((SimpleSelector::Id(name.clone()), i + 1)),
                None => None,
            },
        }
    } else {
        match hash(tts, i) {
            Some(name) => Some((SimpleSelector::Id(name.clone()), i + 1)),
            None => None,
        }
    }
}

/// Where the selector of a mixin call that starts at `i` ends.
pub fn mixin_selector_end(tts: &[Spanned<TokenTree>], i: usize) -> (r: Option<usize>)
    requires
        i <= tts.len(),
    ensures
        match r {
            Some(end) => rules::mixin_selector_end(trees_view(tts@), i as int) == Some(end as int)
                && i < end <= tts.len(),
            None => rules::mixin_selector_end(trees_view(tts@), i as int) is None,
        },
    decreases tts.len() - i,
{
    match segment_end(tts, i) {
        None => None,
        Some(end) => {
            let n = tts.len();
            let mut next = junk(tts, end);
            if next < n && is_symbol(&tts[next].0, '>') {
                next = junk(tts, next + 1);
            }
            match mixin_selector_end(tts, next) {
                Some(e) => Some(e),
                None => Some(end),
            }
        },
    }
}

/// Whether the definition of a mixin starts at `i`.
pub fn mixin_rule_starts(tts: &[Spanned<TokenTree>], i: usize) -> (r: bool)
    ensures
        r == rules::mixin_rule_starts(trees_view(tts@), i as int),
{
    let n = tts.len();
    match segment_end(tts, i) {
        None => false,
        Some(end) => {
            let paren = junk(tts, end);
            if group(tts, paren, Delim::Paren).is_none() {
                return false;
            }
            let next = junk(tts, paren + 1);
            group(tts, next, Delim::Brace).is_some() || (next < n && is_ident(&tts[next].0, "when"))
        },
    }
}

/// The definition of a mixin that starts at `i`, and where it ends.
pub fn mixin_rule(tts: &[Spanned<TokenTree>], i: usize) -> (r: Result<(Item, usize), ParseError>)
    requires
        i < tts.len(),
    ensures
        item_result(r) == rules::mixin_rule(trees_view(tts@), i as int),
        r matches Ok((_, end)) ==> i < end <= tts.len(),
    decreases tts@, 0int, 0int,
{
    let n = tts.len();
    match mixin_segment(tts, i) {
        None => Err(error(ErrorKind::UnknownItemShape, span_at(tts, i))),
        Some((name, end)) => {
            let paren = junk(tts, end);
            let next = if paren < n {
                junk(tts, paren + 1)
            } else {
                n
            };
            let guarded = next < n && is_ident(&tts[next].0, "when");
            let h = if guarded {
                scan(tts, next + 1, TreeClass::NotTerminator)
            } else {
                next
            };
            if !(h < n && paren < n) {
                return Err(error_in(ErrorKind::ExpectedBlock, span_at(tts, h), span_at(tts, i)));
            }
            let guard = if guarded {
                let guard = trimmed(tts, next + 1, h);
                if guard.0.len() == 0 {
                    return Err(error(ErrorKind::EmptyExpression, span_at(tts, h)));
                }
                Some(guard)
            } else {
                None
            };
            match (group(tts, paren, Delim::Paren), group(tts, h, Delim::Brace)) {
                (Some(arguments), Some(content)) => match block(content) {
                    Err(e) => Err(e),
                    Ok(items) => {
                        proof {
                            lemma_block_model(items);
                        }
                        let arguments = copy(arguments.as_slice(), 0, arguments.len());
                        assert(arguments@ =~= trees_view(
                            tts@,
                        )[paren as int].0->Tree_1);
                        Ok(
                            (
                                Item::QualifiedRule(
                                    QualifiedRule::Mixin(
                                        MixinRule { name, arguments, guard, block: items },
                                    ),
                                ),
                                h + 1,
                            ),
                        )
                    },
                },
                _ => Err(error_in(ErrorKind::ExpectedBlock, span_at(tts, h), span_at(tts, i))),
            }
        },
    }
}

/// The first index from `from` up to `to` at which `when` stands, or `to`.
pub fn guard_from(tts: &[Spanned<TokenTree>], from: usize, to: usize) -> (r: usize)
    requires
        from <= to <= tts.len(),
    ensures
        r == rules::guard_from(trees_view(tts@), from as int, to as int),
        from <= r <= to,
{
    let mut i = from;
    while i < to && !is_ident(&tts[i].0, "when")
        invariant
            from <= i <= to <= tts.len(),
            rules::guard_from(trees_view(tts@), from as int, to as int) == rules::guard_from(
                trees_view(tts@),
                i as int,
                to as int,
            ),
        decreases to - i,
    {
        i += 1;
    }
    i
}

/// The qualified rule that starts at `i`, and where it ends.
pub fn qualified_rule(tts: &[Spanned<TokenTree>], i: usize) -> (r: Result<
    (Item, usize),
    ParseError,
>)
    requires
        i < tts.len(),
    ensures
        item_result(r) == rules::qualified_rule(trees_view(tts@), i as int),
        r matches Ok((_, end)) ==> i < end <= tts.len(),
    decreases tts@, 0int, 0int,
{
    let n = tts.len();
    let h = scan(tts, i, TreeClass::NotTerminator);
    let w = guard_from(tts, i, h);
    if h >= n {
        return Err(error_in(ErrorKind::ExpectedBlock, span_at(tts, h), span_at(tts, i)));
    }
    match group(tts, h, Delim::Brace) {
        None => Err(error_in(ErrorKind::ExpectedBlock, tts[h].1, span_at(tts, i))),
        Some(content) => match block(content) {
            Err(e) => Err(e),
            Ok(items) => {
                proof {
                    lemma_block_model(items);
                }
                if w < h {
                    let guard = trimmed(tts, w + 1, h);
                    if guard.0.len() == 0 {
                        Err(error(ErrorKind::EmptyExpression, tts[h].1))
                    } else {
                        let selectors = trimmed(tts, i, w);
                        Ok(
                            (
                                Item::QualifiedRule(
                                    QualifiedRule::Style(
                                        StyleRule { selectors, guard: Some(guard), block: items },
                                    ),
                                ),
                                h + 1,
                            ),
                        )
                    }
                } else {
                    let prelude = trimmed(tts, i, h);
                    Ok(
                        (
                            Item::QualifiedRule(
                                QualifiedRule::Generic(GenericRule { prelude, block: items }),
                            ),
                            h + 1,
                        ),
                    )
                }
            },
        },
    }
}

/// The call that starts at `i`, and where it ends.
pub fn call(tts: &[Spanned<TokenTree>], i: usize) -> (r: Result<(Item, usize), ParseError>)
    requires
        i < tts.len(),
    ensures
        item_result(r) == rules::call(trees_view(tts@), i as int),
        r matches Ok((_, end)) ==> i < end <= tts.len(),
{
    let n = tts.len();
    match mixin_selector_end(tts, i) {
        Some(selector_end) => {
            let paren = junk(tts, selector_end);
            match group(tts, paren, Delim::Paren) {
                Some(content) => {
                    let semicolon = junk(tts, paren + 1);
                    if semicolon < n && is_symbol(&tts[semicolon].0, ';') {
                        let selector = copy(tts, i, selector_end);
                        let arguments = copy(content.as_slice(), 0, content.len());
                        assert(arguments@ =~= trees_view(content@));
                        return Ok(
                            (Item::Call(Call::Mixin(MixinCall { selector, arguments })), semicolon + 1),
                        );
                    } else {
                        return Err(
                            error_in(
                                ErrorKind::ExpectedSemicolon,
                                span_at(tts, semicolon),
                                span_at(tts, i),
                            ),
                        );
                    }
                },
                None => {},
            }
        },
        None => {},
    }
    match ident(tts, i) {
        Some(name) => match group(tts, i + 1, Delim::Paren) {
            Some(content) => {
                let semicolon = junk(tts, i + 2);
                if semicolon < n && is_symbol(&tts[semicolon].0, ';') {
                    let arguments = copy(content.as_slice(), 0, content.len());
                    assert(arguments@ =~= trees_view(content@));
                    Ok(
                        (
                            Item::Call(
                                Call::Function(FunctionCall { name: name.clone(), arguments }),
                            ),
                            semicolon + 1,
                        ),
                    )
                } else {
                    Err(
                        error_in(
                            ErrorKind::ExpectedSemicolon,
                            span_at(tts, semicolon),
                            span_at(tts, i),
                        ),
                    )
                }
            },
            None => Err(error(ErrorKind::UnknownItemShape, span_at(tts, i))),
        },
        None => Err(error(ErrorKind::UnknownItemShape, span_at(tts, i))),
    }
}

/// Where the call of a variable ends whose parentheses stand at `paren`.
pub fn variable_call_end(tts: &[Spanned<TokenTree>], paren: usize) -> (r: Option<usize>)
    ensures
        match r {
            Some(end) => rules::variable_call_end(trees_view(tts@), paren as int) == Some(
                end as int,
            ) && paren < end <= tts.len(),
            None => rules::variable_call_end(trees_view(tts@), paren as int) is None,
        },
{
    match group(tts, paren, Delim::Paren) {
        Some(content) => {
            let semicolon = junk(tts, paren + 1);
            if junk(content.as_slice(), 0) >= content.len() && symbol(tts, semicolon, ';') {
                Some(semicolon + 1)
            } else {
                None
            }
        },
        None => None,
    }
}

/// The item that starts at `i`, and where it ends.
pub fn item_at(tts: &[Spanned<TokenTree>], i: usize) -> (r: Result<(Item, usize), ParseError>)
    requires
        i < tts.len(),
    ensures
        item_result(r) == rules::item_at(trees_view(tts@), i as int),
        r matches Ok((_, end)) ==> i < end <= tts.len(),
    decreases tts@, tts@.len() - i, 0int,
{
    let n = tts.len();
    match at_ident(tts, i) {
        Some(name) => {
            let colon = junk(tts, i + 2);
            if colon < n && is_symbol(&tts[colon].0, ':') {
                return Ok(declaration(tts, DeclarationName::Variable(name.clone()), colon + 1));
            }
            return match variable_call_end(tts, i + 2) {
                Some(end) => Ok(
                    (
                        Item::Call(Call::Variable(VariableCall { name: name.clone(), lookups: None })),
                        end,
                    ),
                ),
                None => at_rule(tts, name.clone(), i + 2),
            };
        },
        None => {},
    }
    if mixin_rule_starts(tts, i) {
        return mixin_rule(tts, i);
    }
    let h = scan(tts, i, TreeClass::NotTerminator);
    if group(tts, h, Delim::Brace).is_some() {
        return qualified_rule(tts, i);
    }
    match ident(tts, i) {
        Some(name) => {
            let colon = junk(tts, i + 1);
            if colon < n && is_symbol(&tts[colon].0, ':') {
                return Ok(declaration(tts, DeclarationName::Ident(name.clone()), colon + 1));
            }
        },
        None => {},
    }
    call(tts, i)
}

/// The outcome `r` of a list of items, with the items of `prefix` put in
/// front.
pub open spec fn prepend(
    prefix: Seq<(ItemModel, Span)>,
    r: Result<Seq<(ItemModel, Span)>, ParseError>,
) -> Result<Seq<(ItemModel, Span)>, ParseError> {
    match r {
        Err(e) => Err(e),
        Ok(rest) => Ok(prefix + rest),
    }
}

/// The items from `from` on, each with its span.
pub fn list_of_items(tts: &[Spanned<TokenTree>], from: usize) -> (r: Result<
    ListOfItems,
    ParseError,
>)
    requires
        from <= tts.len(),
    ensures
        items_result(r) == rules::list_of_items(trees_view(tts@), from as int),
    decreases tts@, tts@.len() - from, 1int,
{
    let n = tts.len();
    let mut items: Vec<Spanned<Item>> = Vec::new();
    let mut i = from;
    proof {
        assert(items_view(items@) =~= Seq::empty());
        match rules::list_of_items(trees_view(tts@), from as int) {
            Err(_) => {},
            Ok(rest) => {
                assert(Seq::<(ItemModel, Span)>::empty() + rest =~= rest);
            },
        }
    }
    loop
        invariant
            n == tts.len(),
            from <= i <= n,
            rules::list_of_items(trees_view(tts@), from as int) == prepend(
                items_view(items@),
                rules::list_of_items(trees_view(tts@), i as int),
            ),
        decreases n - i,
    {
        let start = junk(tts, i);
        if start >= n {
            proof {
                assert(items_view(items@) + Seq::empty() =~= items_view(items@));
            }
            return Ok(ListOfItems(items));
        }
        match item_at(tts, start) {
            Err(e) => {
                return Err(e);
            },
            Ok((item, end)) => {
                let span = Span { start: tts[start].1.start, end: tts[end - 1].1.end };
                proof {
                    let ts = trees_view(tts@);
                    match rules::list_of_items(ts, end as int) {
                        Err(_) => {},
                        Ok(rest) => {
                            assert(items_view(items@) + (seq![(item@, span)] + rest)
                                =~= items_view(items@).push((item@, span)) + rest);
                        },
                    }
                    assert(items_view(items@.push((item, span))) =~= items_view(items@).push(
                        (item@, span),
                    ));
                }
                items.push((item, span));
                i = end;
            },
        }
    }
}

/// Parses the token trees of a style sheet into its items.
///
/// The span that comes with the style sheet covers all of `tts`.
pub fn parser(tts: &[Spanned<TokenTree>]) -> (r: Result<Spanned<Stylesheet>, ParseError>)
    ensures
        match r {
            Ok((sheet, span)) => rules::list_of_items(trees_view(tts@), 0) == Ok::<
                Seq<(ItemModel, Span)>,
                ParseError,
            >(sheet@) && span == rules::whole_span(trees_view(tts@)),
            Err(e) => rules::list_of_items(trees_view(tts@), 0) == Err::<
                Seq<(ItemModel, Span)>,
                ParseError,
            >(e),
        },
{
    let n = tts.len();
    match list_of_items(tts, 0) {
        Err(e) => Err(e),
        Ok(items) => {
            let span = if n == 0 {
                Span { start: 0, end: 0 }
            } else {
                Span { start: tts[0].1.start, end: tts[n - 1].1.end }
            };
            Ok((Stylesheet { items }, span))
        },
    }
}

} // verus!
