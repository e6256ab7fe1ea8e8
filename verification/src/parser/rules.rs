//! What the structural parser produces, stated on token trees alone.
//!
//! Positions in this module are indices into a sequence of sibling token
//! trees.

use super::{ErrorKind, ParseError};
use crate::ast::selector::SimpleSelectorModel;
use crate::ast::{DeclarationNameModel, ItemModel, Trees};
use crate::lexer::{Delim, Span, TokenModel, TreeModel};
use vstd::prelude::*;

verus! {

/// An error of kind `kind` at `span`.
pub open spec fn error(kind: ErrorKind, span: Span) -> ParseError {
    ParseError { kind, span, secondary: None }
}

/// An error of kind `kind` at `span`, found in what starts at `start`.
pub open spec fn error_in(kind: ErrorKind, span: Span, start: Span) -> ParseError {
    ParseError { kind, span, secondary: Some(start) }
}

/// Whitespace or a comment.
pub open spec fn is_junk(tree: TreeModel) -> bool {
    tree matches TreeModel::Token(token) && (token is Whitespace || token is Comment)
}

/// The symbol `c`.
pub open spec fn is_symbol(tree: TreeModel, c: char) -> bool {
    tree == TreeModel::Token(TokenModel::Symbol(c))
}

/// The identifier `text`.
pub open spec fn is_ident(tree: TreeModel, text: Seq<char>) -> bool {
    tree == TreeModel::Token(TokenModel::Ident(text))
}

/// `;` or a group in braces: what ends a rule.
pub open spec fn is_terminator(tree: TreeModel) -> bool {
    is_symbol(tree, ';') || (tree matches TreeModel::Tree(delim, _) && delim == Delim::Brace)
}

/// Whether the symbol `c` stands at `i`.
pub open spec fn symbol_at(ts: Trees, i: int, c: char) -> bool {
    0 <= i < ts.len() && is_symbol(ts[i].0, c)
}

/// The text of the identifier that stands at `i`.
pub open spec fn ident_at(ts: Trees, i: int) -> Option<Seq<char>> {
    if 0 <= i < ts.len() {
        match ts[i].0 {
            TreeModel::Token(TokenModel::Ident(text)) => Some(text),
            _ => None,
        }
    } else {
        None
    }
}

/// The name of the hash that stands at `i`.
pub open spec fn hash_at(ts: Trees, i: int) -> Option<Seq<char>> {
    if 0 <= i < ts.len() {
        match ts[i].0 {
            TreeModel::Token(TokenModel::Hash(text)) => Some(text),
            _ => None,
        }
    } else {
        None
    }
}

/// The content of the group in `delim` that stands at `i`.
pub open spec fn group_at(ts: Trees, i: int, delim: Delim) -> Option<Trees> {
    if 0 <= i < ts.len() {
        match ts[i].0 {
            TreeModel::Tree(d, content) => if d == delim {
                Some(content)
            } else {
                None
            },
            _ => None,
        }
    } else {
        None
    }
}

/// A class of token trees of which the parser takes a run.
#[derive(Clone, Copy, Debug, PartialEq, Eq, Structural)]
pub enum TreeClass {
    /// Whitespace and comments.
    Junk,
    /// Anything but `;`.
    NotSemicolon,
    /// Anything but `;` and a group in braces.
    NotTerminator,
}

impl TreeClass {
    /// Whether `tree` belongs to the class.
    pub open spec fn spec_holds(self, tree: TreeModel) -> bool {
        match self {
            TreeClass::Junk => is_junk(tree),
            TreeClass::NotSemicolon => !is_symbol(tree, ';'),
            TreeClass::NotTerminator => !is_terminator(tree),
        }
    }
}

/// Where the longest run of `class` that starts at `i` ends.
pub open spec fn run_end(ts: Trees, i: int, class: TreeClass) -> int
    decreases ts.len() - i,
{
    if 0 <= i < ts.len() && class.spec_holds(ts[i].0) {
        run_end(ts, i + 1, class)
    } else {
        i
    }
}

/// `run_end` is the first index from `i` on that is the end of the sequence
/// or holds a tree outside `class`.
pub proof fn lemma_run_end(ts: Trees, i: int, class: TreeClass)
    requires
        0 <= i <= ts.len(),
    ensures
        i <= run_end(ts, i, class) <= ts.len(),
        forall|k: int| i <= k < run_end(ts, i, class) ==> class.spec_holds((#[trigger] ts[k]).0),
        run_end(ts, i, class) < ts.len() ==> !class.spec_holds(ts[run_end(ts, i, class)].0),
    decreases ts.len() - i,
{
    if i < ts.len() && class.spec_holds(ts[i].0) {
        lemma_run_end(ts, i + 1, class);
    }
}

/// The first index from `i` on that holds no junk.
pub open spec fn skip_junk(ts: Trees, i: int) -> int {
    run_end(ts, i, TreeClass::Junk)
}

/// The first index from `i` on that holds `;`, or the end.
pub open spec fn semicolon_from(ts: Trees, i: int) -> int {
    run_end(ts, i, TreeClass::NotSemicolon)
}

/// The first index from `i` on that holds `;` or a group in braces, or the
/// end: where the item that starts at `i` must end.
pub open spec fn horizon(ts: Trees, i: int) -> int {
    run_end(ts, i, TreeClass::NotTerminator)
}

/// The end of the range from `from` to `to` without the junk at its end.
pub open spec fn trim_end(ts: Trees, from: int, to: int) -> int
    decreases to - from,
{
    if from < to <= ts.len() && 0 <= from && is_junk(ts[to - 1].0) {
        trim_end(ts, from, to - 1)
    } else {
        to
    }
}

/// `trim_end` stays in the range, and what stands before it is no junk.
pub proof fn lemma_trim_end(ts: Trees, from: int, to: int)
    requires
        0 <= from <= to <= ts.len(),
    ensures
        from <= trim_end(ts, from, to) <= to,
        trim_end(ts, from, to) > from ==> !is_junk(ts[trim_end(ts, from, to) - 1].0),
        forall|k: int| trim_end(ts, from, to) <= k < to ==> is_junk((#[trigger] ts[k]).0),
    decreases to - from,
{
    if from < to && is_junk(ts[to - 1].0) {
        lemma_trim_end(ts, from, to - 1);
    }
}

/// The start of the range from `from` to `to` without the junk at its start.
pub open spec fn trim_start(ts: Trees, from: int, to: int) -> int {
    if skip_junk(ts, from) < to {
        skip_junk(ts, from)
    } else {
        to
    }
}

/// The range from `from` to `to` without the junk at its ends.
pub open spec fn trimmed(ts: Trees, from: int, to: int) -> Trees {
    ts.subrange(trim_start(ts, from, to), trim_end(ts, trim_start(ts, from, to), to))
}

/// The span of an empty range at the end of the sequence.
pub open spec fn end_span(ts: Trees) -> Span {
    if ts.len() == 0 {
        Span { start: 0, end: 0 }
    } else {
        Span { start: ts.last().1.end, end: ts.last().1.end }
    }
}

/// The span of the tree at `i`, or of the end of the sequence.
pub open spec fn span_at(ts: Trees, i: int) -> Span {
    if 0 <= i < ts.len() {
        ts[i].1
    } else {
        end_span(ts)
    }
}

/// The span from the start of the tree at `from` to the end of the tree
/// before `to`.
pub open spec fn span_of(ts: Trees, from: int, to: int) -> Span {
    Span { start: ts[from].1.start, end: ts[to - 1].1.end }
}

/// The text of the keyword that opens a guard.
pub open spec fn when_keyword() -> Seq<char> {
    "when"@
}

/// The text of the keyword of the flag `!important`.
pub open spec fn important_keyword() -> Seq<char> {
    "important"@
}

/// Whether the value in the range from `from` to `to`, which has no junk at
/// its end, ends with `!` and `important`, junk between them or not; and
/// where the value ends without them and the junk before them.
pub open spec fn important_split(ts: Trees, from: int, to: int) -> (bool, int) {
    if 0 <= from < to <= ts.len() && is_ident(ts[to - 1].0, important_keyword()) {
        let bang = trim_end(ts, from, to - 1);
        if bang > from && is_symbol(ts[bang - 1].0, '!') {
            (true, trim_end(ts, from, bang - 1))
        } else {
            (false, to)
        }
    } else {
        (false, to)
    }
}

/// The declaration whose name has been read and whose `:` stands before
/// `after_colon`, and where it ends. The value reaches up to the next `;`
/// or to the end, without the junk at its ends and without the flag
/// `!important`. The `;` belongs to the declaration.
pub open spec fn declaration(ts: Trees, name: DeclarationNameModel, after_colon: int) -> (
    ItemModel,
    int,
) {
    let start = skip_junk(ts, after_colon);
    let stop = semicolon_from(ts, start);
    let (important, end) = important_split(ts, start, trim_end(ts, start, stop));
    (
        ItemModel::Declaration { name, value: ts.subrange(start, end), important },
        if stop < ts.len() {
            stop + 1
        } else {
            stop
        },
    )
}

/// Whether the call of a variable stands from the parentheses at `paren` on:
/// parentheses with nothing but junk in them, and `;`. Gives the end.
pub open spec fn variable_call_end(ts: Trees, paren: int) -> Option<int> {
    match group_at(ts, paren, Delim::Paren) {
        Some(content) => if skip_junk(content, 0) >= content.len() && symbol_at(
            ts,
            skip_junk(ts, paren + 1),
            ';',
        ) {
            Some(skip_junk(ts, paren + 1) + 1)
        } else {
            None
        },
        None => None,
    }
}

/// One segment of the selector of a mixin, `.name` or `#name`, at `i`: the
/// selector, and where the segment ends.
pub open spec fn mixin_segment(ts: Trees, i: int) -> Option<(SimpleSelectorModel, int)> {
    if symbol_at(ts, i, '.') && ident_at(ts, i + 1) is Some {
        Some((SimpleSelectorModel::Class(ident_at(ts, i + 1)->0), i + 2))
    } else if hash_at(ts, i) is Some {
        Some((SimpleSelectorModel::Id(hash_at(ts, i)->0), i + 1))
    } else {
        None
    }
}

/// Where the selector of a mixin call that starts at `i` ends: segments
/// with junk, `>` or nothing between them.
pub open spec fn mixin_selector_end(ts: Trees, i: int) -> Option<int>
    decreases ts.len() - i,
{
    match mixin_segment(ts, i) {
        None => None,
        Some((_, end)) => {
            let next = skip_junk(ts, end);
            let next = if symbol_at(ts, next, '>') {
                skip_junk(ts, next + 1)
            } else {
                next
            };
            if i < next <= ts.len() && mixin_selector_end(ts, next) is Some {
                mixin_selector_end(ts, next)
            } else {
                Some(end)
            }
        },
    }
}

/// The item that starts at `i`, where a tree stands that is no junk, and
/// where the item ends. The first of these shapes that fits wins:
///
/// 1. `@name:`, a declaration of a variable;
/// 2. `@name();`, the call of a variable;
/// 3. `@name`, an at-rule;
/// 4. `.name(..)` or `#name(..)` and then a block or a guard, the definition
///    of a mixin;
/// 5. anything up to a block of which no `;` stands in front, a qualified
///    rule;
/// 6. `name:`, a declaration;
/// 7. the selector of a mixin and `(..)`, the call of a mixin;
/// 8. `name(..)`, the call of a function.
///
/// What has none of these shapes is an error.
pub open spec fn item_at(ts: Trees, i: int) -> Result<(ItemModel, int), ParseError>
    decreases ts, ts.len() - i, 0int,
{
    if !(0 <= i < ts.len()) {
        Err(error(ErrorKind::UnknownItemShape, span_at(ts, i)))
    } else if symbol_at(ts, i, '@') && ident_at(ts, i + 1) is Some {
        let name = ident_at(ts, i + 1)->0;
        if symbol_at(ts, skip_junk(ts, i + 2), ':') {
            Ok(declaration(ts, DeclarationNameModel::Variable(name), skip_junk(ts, i + 2) + 1))
        } else if variable_call_end(ts, i + 2) is Some {
            Ok((ItemModel::VariableCall { name, lookups: None }, variable_call_end(ts, i + 2)->0))
        } else {
            at_rule(ts, name, i + 2)
        }
    } else if mixin_rule_starts(ts, i) {
        mixin_rule(ts, i)
    } else if group_at(ts, horizon(ts, i), Delim::Brace) is Some {
        qualified_rule(ts, i)
    } else if ident_at(ts, i) is Some && symbol_at(ts, skip_junk(ts, i + 1), ':') {
        Ok(
            declaration(
                ts,
                DeclarationNameModel::Ident(ident_at(ts, i)->0),
                skip_junk(ts, i + 1) + 1,
            ),
        )
    } else {
        call(ts, i)
    }
}

/// The call that starts at `i`, and where it ends: the call of a mixin,
/// which is the selector of a mixin, `(..)` and `;`, or the call of a
/// function, which is a name, `(..)` and `;`. A call without its `;` is an
/// error, and so is anything else.
pub open spec fn call(ts: Trees, i: int) -> Result<(ItemModel, int), ParseError> {
    if mixin_selector_end(ts, i) is Some && group_at(
        ts,
        skip_junk(ts, mixin_selector_end(ts, i)->0),
        Delim::Paren,
    ) is Some {
        let selector_end = mixin_selector_end(ts, i)->0;
        let paren = skip_junk(ts, selector_end);
        let semicolon = skip_junk(ts, paren + 1);
        if symbol_at(ts, semicolon, ';') {
            Ok(
                (
                    ItemModel::MixinCall {
                        selector: ts.subrange(i, selector_end),
                        arguments: group_at(ts, paren, Delim::Paren)->0,
                    },
                    semicolon + 1,
                ),
            )
        } else {
            Err(error_in(ErrorKind::ExpectedSemicolon, span_at(ts, semicolon), span_at(ts, i)))
        }
    } else if ident_at(ts, i) is Some && group_at(ts, i + 1, Delim::Paren) is Some {
        let semicolon = skip_junk(ts, i + 2);
        if symbol_at(ts, semicolon, ';') {
            Ok(
                (
                    ItemModel::FunctionCall {
                        name: ident_at(ts, i)->0,
                        arguments: group_at(ts, i + 1, Delim::Paren)->0,
                    },
                    semicolon + 1,
                ),
            )
        } else {
            Err(error_in(ErrorKind::ExpectedSemicolon, span_at(ts, semicolon), span_at(ts, i)))
        }
    } else {
        Err(error(ErrorKind::UnknownItemShape, span_at(ts, i)))
    }
}

/// The at-rule `@name` whose prelude starts at `from`, and where it ends.
/// The prelude reaches up to the next `;` or block, or to the end. A block
/// there belongs to the rule and is read as a list of items; a `;` belongs
/// to the rule too.
pub open spec fn at_rule(ts: Trees, name: Seq<char>, from: int) -> Result<
    (ItemModel, int),
    ParseError,
>
    decreases ts, 0int, 0int,
{
    let h = horizon(ts, from);
    let prelude = trimmed(ts, from, h);
    if 0 <= h < ts.len() {
        match ts[h].0 {
            TreeModel::Tree(Delim::Brace, content) => match list_of_items(content, 0) {
                Err(e) => Err(e),
                Ok(block) => Ok((ItemModel::AtRule { name, prelude, block: Some(block) }, h + 1)),
            },
            _ => Ok((ItemModel::AtRule { name, prelude, block: None }, h + 1)),
        }
    } else {
        Ok((ItemModel::AtRule { name, prelude, block: None }, h))
    }
}

/// Whether the definition of a mixin starts at `i`: one segment, `(..)`, and
/// then a block or `when`.
pub open spec fn mixin_rule_starts(ts: Trees, i: int) -> bool {
    mixin_segment(ts, i) matches Some((_, end)) && {
        let paren = skip_junk(ts, end);
        let next = skip_junk(ts, paren + 1);
        &&& group_at(ts, paren, Delim::Paren) is Some
        &&& (group_at(ts, next, Delim::Brace) is Some || ident_at(ts, next) == Some(
            when_keyword(),
        ))
    }
}

/// The definition of a mixin that starts at `i`, and where it ends. After
/// `when` the guard reaches up to the block; a guard without a block, and a
/// guard of nothing but junk, are errors.
pub open spec fn mixin_rule(ts: Trees, i: int) -> Result<(ItemModel, int), ParseError>
    decreases ts, 0int, 0int,
{
    match mixin_segment(ts, i) {
        None => Err(error(ErrorKind::UnknownItemShape, span_at(ts, i))),
        Some((name, end)) => {
            let paren = skip_junk(ts, end);
            let next = skip_junk(ts, paren + 1);
            let guarded = ident_at(ts, next) == Some(when_keyword());
            let h = if guarded {
                horizon(ts, next + 1)
            } else {
                next
            };
            let guard = if guarded {
                Some(trimmed(ts, next + 1, h))
            } else {
                None
            };
            if !(0 <= h < ts.len() && 0 <= paren < ts.len()) {
                Err(error_in(ErrorKind::ExpectedBlock, span_at(ts, h), span_at(ts, i)))
            } else if guarded && trimmed(ts, next + 1, h).len() == 0 {
                Err(error(ErrorKind::EmptyExpression, span_at(ts, h)))
            } else {
                match (ts[paren].0, ts[h].0) {
                    (
                        TreeModel::Tree(Delim::Paren, arguments),
                        TreeModel::Tree(Delim::Brace, content),
                    ) => match list_of_items(content, 0) {
                        Err(e) => Err(e),
                        Ok(block) => Ok(
                            (ItemModel::MixinRule { name, arguments, guard, block }, h + 1),
                        ),
                    },
                    _ => Err(error_in(ErrorKind::ExpectedBlock, span_at(ts, h), span_at(ts, i))),
                }
            }
        },
    }
}

/// The first index from `i` up to `to` at which `when` stands, or `to`.
pub open spec fn guard_from(ts: Trees, i: int, to: int) -> int
    decreases to - i,
{
    if 0 <= i < to <= ts.len() && !is_ident(ts[i].0, when_keyword()) {
        guard_from(ts, i + 1, to)
    } else {
        i
    }
}

/// The qualified rule that starts at `i`, and where it ends. Its prelude
/// reaches up to the block. Where `when` stands in the prelude, the rule is a
/// style rule: the selectors before it, the guard after it.
pub open spec fn qualified_rule(ts: Trees, i: int) -> Result<(ItemModel, int), ParseError>
    decreases ts, 0int, 0int,
{
    let h = horizon(ts, i);
    let w = guard_from(ts, i, h);
    if !(0 <= i <= h < ts.len()) {
        Err(error_in(ErrorKind::ExpectedBlock, span_at(ts, h), span_at(ts, i)))
    } else {
        match ts[h].0 {
            TreeModel::Tree(Delim::Brace, content) => match list_of_items(content, 0) {
                Err(e) => Err(e),
                Ok(block) => if w < h {
                    if trimmed(ts, w + 1, h).len() == 0 {
                        Err(error(ErrorKind::EmptyExpression, ts[h].1))
                    } else {
                        Ok(
                            (
                                ItemModel::StyleRule {
                                    selectors: trimmed(ts, i, w),
                                    guard: Some(trimmed(ts, w + 1, h)),
                                    block,
                                },
                                h + 1,
                            ),
                        )
                    }
                } else {
                    Ok((ItemModel::GenericRule { prelude: trimmed(ts, i, h), block }, h + 1))
                },
            },
            _ => Err(error_in(ErrorKind::ExpectedBlock, ts[h].1, span_at(ts, i))),
        }
    }
}

/// The items from `i` on, each with its span, junk between them skipped.
pub open spec fn list_of_items(ts: Trees, i: int) -> Result<Seq<(ItemModel, Span)>, ParseError>
    decreases ts, ts.len() - i, 1int,
{
    let start = skip_junk(ts, i);
    if !(0 <= i <= start < ts.len()) {
        Ok(Seq::empty())
    } else {
        match item_at(ts, start) {
            Err(e) => Err(e),
            Ok((item, end)) => if !(start < end <= ts.len()) {
                Err(error(ErrorKind::UnknownItemShape, ts[start].1))
            } else {
                match list_of_items(ts, end) {
                    Err(e) => Err(e),
                    Ok(rest) => Ok(seq![(item, span_of(ts, start, end))] + rest),
                }
            },
        }
    }
}

/// The span of a whole sequence of token trees.
pub open spec fn whole_span(ts: Trees) -> Span {
    if ts.len() == 0 {
        Span { start: 0, end: 0 }
    } else {
        Span { start: ts[0].1.start, end: ts.last().1.end }
    }
}

} // verus!
