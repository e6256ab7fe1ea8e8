//! What the expression parser produces, stated on token trees alone.
//!
//! Every function that reads a value gives the value and the index behind
//! it and the junk that follows it.

use crate::ast::expression::{
    BinaryOperator, ExpressionModel, GuardedBlockModel, LookupModel, MixinCallArgumentModel,
    MixinDeclarationArgumentModel, MixinDeclarationModel,
};
use crate::ast::ItemModel;
use crate::ast::selector::SimpleSelectorModel;
use crate::ast::Trees;
use crate::lexer::{Delim, NumberModel, Span, TokenModel, TreeModel};
use crate::parser::rules::{
    error, group_at, ident_at, is_ident, list_of_items, mixin_rule, mixin_segment, skip_junk,
    span_at, symbol_at, whole_span,
};
use crate::parser::mixin::FoldError;
use crate::parser::string::string_value;
use crate::parser::{ErrorKind, ParseError};
use vstd::prelude::*;

verus! {

/// The outcome of reading a value: the value and where it ends, or an error.
pub type Parsed = Result<(ExpressionModel, int), ParseError>;

/// The text of the string that stands at `i`.
pub open spec fn string_at(ts: Trees, i: int) -> Option<Seq<char>> {
    if 0 <= i < ts.len() {
        match ts[i].0 {
            TreeModel::Token(TokenModel::String(text)) => Some(text),
            _ => None,
        }
    } else {
        None
    }
}

/// Whether a simple value can start at `i`: with a number, a string, a
/// name, a hash, a group in parentheses, with `@`, `$` or `.` and a name, or
/// with `~` and a string.
pub open spec fn starts_simple(ts: Trees, i: int) -> bool {
    0 <= i < ts.len() && match ts[i].0 {
        TreeModel::Token(TokenModel::Number(_)) => true,
        TreeModel::Token(TokenModel::String(_)) => true,
        TreeModel::Token(TokenModel::Ident(_)) => true,
        TreeModel::Token(TokenModel::Hash(_)) => true,
        TreeModel::Token(TokenModel::Symbol(c)) => ((c == '@' || c == '$' || c == '.') && ident_at(
            ts,
            i + 1,
        ) is Some) || (c == '~' && string_at(ts, i + 1) is Some),
        TreeModel::Tree(delim, _) => delim == Delim::Paren,
        _ => false,
    }
}

/// Whether a value can start at `i`: a simple value or a detached ruleset.
pub open spec fn starts_value(ts: Trees, i: int) -> bool {
    starts_simple(ts, i) || group_at(ts, i, Delim::Brace) is Some
}

/// The text of the unit `%`.
pub open spec fn percent() -> Seq<char> {
    seq!['%']
}

/// The number that stands at `i`, with the unit that follows it at once: a
/// name or `%`.
pub open spec fn numeric(ts: Trees, i: int, number: NumberModel) -> (ExpressionModel, int) {
    if ident_at(ts, i + 1) is Some {
        (ExpressionModel::Numeric(number, ident_at(ts, i + 1)), skip_junk(ts, i + 2))
    } else if symbol_at(ts, i + 1, '%') {
        (ExpressionModel::Numeric(number, Some(percent())), skip_junk(ts, i + 2))
    } else {
        (ExpressionModel::Numeric(number, None), skip_junk(ts, i + 1))
    }
}

/// The string with the content `text` at `span`, as a value that ends at
/// `end`.
pub open spec fn quoted(text: Seq<char>, span: Span, end: int) -> Parsed {
    match string_value(text, span) {
        Ok(value) => Ok((value, end)),
        Err(e) => Err(e),
    }
}

/// The key that the content of a lookup holds: nothing, a name, or a name
/// behind `@`, `$`, `@@` or `$@`. Anything else, and anything behind the key,
/// is an error.
pub open spec fn lookup_key(content: Trees) -> Result<LookupModel, ParseError> {
    let k = skip_junk(content, 0);
    let (key, width) = if k >= content.len() {
        (Some(LookupModel::Last), 0int)
    } else if symbol_at(content, k, '$') && symbol_at(content, k + 1, '@') && ident_at(
        content,
        k + 2,
    ) is Some {
        (Some(LookupModel::VariableProperty(ident_at(content, k + 2)->0)), 3int)
    } else if symbol_at(content, k, '@') && symbol_at(content, k + 1, '@') && ident_at(
        content,
        k + 2,
    ) is Some {
        (Some(LookupModel::VariableVariable(ident_at(content, k + 2)->0)), 3int)
    } else if symbol_at(content, k, '$') && ident_at(content, k + 1) is Some {
        (Some(LookupModel::Property(ident_at(content, k + 1)->0)), 2int)
    } else if symbol_at(content, k, '@') && ident_at(content, k + 1) is Some {
        (Some(LookupModel::Variable(ident_at(content, k + 1)->0)), 2int)
    } else if ident_at(content, k) is Some {
        (Some(LookupModel::Ident(ident_at(content, k)->0)), 1int)
    } else {
        (None, 0int)
    };
    let end = skip_junk(content, k + width);
    if key is None {
        Err(error(ErrorKind::UnbalancedLookup, span_at(content, k)))
    } else if end < content.len() {
        Err(error(ErrorKind::UnbalancedLookup, span_at(content, end)))
    } else {
        Ok(key->0)
    }
}

/// The lookups from `i` on, after those in `found`, and where they end.
pub open spec fn lookups(ts: Trees, i: int, found: Seq<LookupModel>) -> Result<
    (Seq<LookupModel>, int),
    ParseError,
>
    decreases ts.len() - i,
{
    match group_at(ts, i, Delim::Bracket) {
        Some(content) => match lookup_key(content) {
            Err(e) => Err(e),
            Ok(key) => if i < skip_junk(ts, i + 1) <= ts.len() {
                lookups(ts, skip_junk(ts, i + 1), found.push(key))
            } else {
                Err(error(ErrorKind::UnbalancedLookup, span_at(ts, i)))
            },
        },
        None => Ok((found, i)),
    }
}

/// The variable `@name` that stands at `i`, with the lookups behind it.
/// Where no `@` and name stand at `i`, the tree there is unexpected.
pub open spec fn variable_or_lookup(ts: Trees, i: int) -> Parsed {
    if !(symbol_at(ts, i, '@') && ident_at(ts, i + 1) is Some) {
        Err(error(ErrorKind::UnexpectedToken, span_at(ts, i)))
    } else {
        let name = ident_at(ts, i + 1)->0;
        match lookups(ts, skip_junk(ts, i + 2), Seq::empty()) {
            Err(e) => Err(e),
            Ok((found, end)) => if found.len() == 0 {
                Ok((ExpressionModel::Variable(name), end))
            } else {
                Ok((ExpressionModel::VariableLookup(name, found), end))
            },
        }
    }
}

/// The operator of precedence `level` that stands at `i`, and the number of
/// tokens that it is made of. The levels, from the one that binds most:
/// 0 for `*` and `/`; 1 for `+` and `-`; 2 for `=`, `<`, `<=`, `>` and `>=`;
/// 3 for `and` and `or`.
pub open spec fn operator_at(ts: Trees, i: int, level: nat) -> Option<(BinaryOperator, int)> {
    if level == 0 {
        if symbol_at(ts, i, '*') {
            Some((BinaryOperator::Multiply, 1int))
        } else if symbol_at(ts, i, '/') {
            Some((BinaryOperator::Divide, 1int))
        } else {
            None
        }
    } else if level == 1 {
        if symbol_at(ts, i, '+') {
            Some((BinaryOperator::Add, 1int))
        } else if symbol_at(ts, i, '-') {
            Some((BinaryOperator::Subtract, 1int))
        } else {
            None
        }
    } else if level == 2 {
        if symbol_at(ts, i, '=') {
            Some((BinaryOperator::Equality, 1int))
        } else if symbol_at(ts, i, '<') {
            if symbol_at(ts, i + 1, '=') {
                Some((BinaryOperator::LessThanOrEqualTo, 2int))
            } else {
                Some((BinaryOperator::LessThan, 1int))
            }
        } else if symbol_at(ts, i, '>') {
            if symbol_at(ts, i + 1, '=') {
                Some((BinaryOperator::GreaterThanOrEqualTo, 2int))
            } else {
                Some((BinaryOperator::GreaterThan, 1int))
            }
        } else {
            None
        }
    } else if level == 3 {
        if 0 <= i < ts.len() && is_ident(ts[i].0, "and"@) {
            Some((BinaryOperator::And, 1int))
        } else if 0 <= i < ts.len() && is_ident(ts[i].0, "or"@) {
            Some((BinaryOperator::Or, 1int))
        } else {
            None
        }
    } else {
        None
    }
}

/// The segments of the selector of a mixin call from `i` on, after those in
/// `found`, and where the selector ends.
pub open spec fn mixin_selector(ts: Trees, i: int, found: Seq<SimpleSelectorModel>) -> (
    Seq<SimpleSelectorModel>,
    int,
)
    decreases ts.len() - i,
{
    match mixin_segment(ts, i) {
        None => (found, i),
        Some((segment, end)) => {
            let next = skip_junk(ts, end);
            let next = if symbol_at(ts, next, '>') {
                skip_junk(ts, next + 1)
            } else {
                next
            };
            if i < next <= ts.len() && mixin_segment(ts, next) is Some {
                mixin_selector(ts, next, found.push(segment))
            } else {
                (found.push(segment), end)
            }
        },
    }
}

/// An argument of a mixin as it is written, before it is known whether it
/// stands in a definition or in a call.
#[allow(inconsistent_fields)]
pub enum ArgumentModel {
    /// `@name`, or with a value `@name: value`.
    Variable { name: Seq<char>, value: Option<ExpressionModel> },
    /// A value.
    Literal { value: ExpressionModel },
    /// `...`, or with a name `@name...`.
    Variadic { name: Option<Seq<char>> },
}

/// Whether `...` stands at `i`.
pub open spec fn variadic_at(ts: Trees, i: int) -> bool {
    symbol_at(ts, i, '.') && symbol_at(ts, i + 1, '.') && symbol_at(ts, i + 2, '.')
}

/// Whether the name of an argument stands at `i`: `@name`.
pub open spec fn argument_name_at(ts: Trees, i: int) -> bool {
    symbol_at(ts, i, '@') && ident_at(ts, i + 1) is Some
}

/// Whether an argument can start at `i`.
pub open spec fn starts_argument(ts: Trees, i: int) -> bool {
    argument_name_at(ts, i) || variadic_at(ts, i) || starts_value(ts, i)
}

/// The first of the `arguments` from `from` on that is no value without a
/// name, as a fault: one with a name mixes the two separators, and a
/// variadic one has others behind it.
pub open spec fn first_fault(arguments: Seq<ArgumentModel>, from: int) -> Option<FoldError>
    decreases arguments.len() - from,
{
    if 0 <= from < arguments.len() {
        match arguments[from] {
            ArgumentModel::Literal { .. } => first_fault(arguments, from + 1),
            ArgumentModel::Variable { .. } => Some(FoldError::MixedSeparators),
            ArgumentModel::Variadic { .. } => Some(FoldError::VariadicNotLast),
        }
    } else {
        None
    }
}

/// The values of the `arguments` from `from` on that are values without a
/// name.
pub open spec fn literal_values(arguments: Seq<ArgumentModel>, from: int) -> Seq<ExpressionModel>
    decreases arguments.len() - from,
{
    if 0 <= from < arguments.len() {
        match arguments[from] {
            ArgumentModel::Literal { value } => seq![value] + literal_values(arguments, from + 1),
            _ => literal_values(arguments, from + 1),
        }
    } else {
        Seq::empty()
    }
}

/// The one argument that arguments separated by commas make once a `;`
/// follows them: their values become one list. The first may have a name,
/// which the result keeps, and may lack a value; the others have a value and
/// no name. Where this is not so, the first fault met: that there is no
/// argument, that the first is variadic, or what `first_fault` finds behind
/// the first.
pub open spec fn to_semicolon_separated(arguments: Seq<ArgumentModel>) -> Result<
    ArgumentModel,
    FoldError,
> {
    if arguments.len() == 0 {
        Err(FoldError::NoArguments)
    } else {
        let rest = literal_values(arguments, 1);
        match (arguments[0], first_fault(arguments, 1)) {
            (ArgumentModel::Variadic { .. }, _) => Err(FoldError::VariadicNotLast),
            (_, Some(fault)) => Err(fault),
            (ArgumentModel::Literal { value }, None) => Ok(
                ArgumentModel::Literal { value: ExpressionModel::CommaList(seq![value] + rest) },
            ),
            (ArgumentModel::Variable { name, value }, None) => {
                let values = match value {
                    Some(value) => seq![value] + rest,
                    None => rest,
                };
                Ok(
                    ArgumentModel::Variable {
                        name,
                        value: if values.len() == 0 {
                            None
                        } else {
                            Some(ExpressionModel::CommaList(values))
                        },
                    },
                )
            },
        }
    }
}

/// The simple value that starts at `i`:
///
/// - a number, with its unit;
/// - a string, which `~` may precede;
/// - `@name`, with lookups behind it;
/// - `$name`;
/// - `name(..)`, the call of a function, or else the keyword `name`;
/// - the call of a mixin, which starts with `.name` or `#name`;
/// - an expression of `and` and `or` in parentheses.
pub open spec fn simple(ts: Trees, i: int) -> Parsed
    decreases ts, ts.len() - i, 1int,
{
    if !(0 <= i < ts.len()) {
        Err(error(ErrorKind::EmptyExpression, span_at(ts, i)))
    } else {
        match ts[i].0 {
            TreeModel::Token(TokenModel::Number(number)) => Ok(numeric(ts, i, number)),
            TreeModel::Token(TokenModel::String(text)) => quoted(
                text,
                ts[i].1,
                skip_junk(ts, i + 1),
            ),
            TreeModel::Token(TokenModel::Ident(name)) => if 0 <= i + 1 < ts.len() {
                match ts[i + 1].0 {
                    TreeModel::Tree(Delim::Paren, content) => match whole(
                        content,
                        semicolon_list(content, skip_junk(content, 0)),
                        ts[i + 1].1,
                    ) {
                        Err(e) => Err(e),
                        Ok(arguments) => Ok(
                            (
                                ExpressionModel::FunctionCall(name, Box::new(arguments)),
                                skip_junk(ts, i + 2),
                            ),
                        ),
                    },
                    _ => Ok((ExpressionModel::Ident(name), skip_junk(ts, i + 1))),
                }
            } else {
                Ok((ExpressionModel::Ident(name), skip_junk(ts, i + 1)))
            },
            TreeModel::Token(TokenModel::Symbol(c)) => if c == '@' && ident_at(ts, i + 1) is Some {
                variable_or_lookup(ts, i)
            } else if c == '$' && ident_at(ts, i + 1) is Some {
                Ok((ExpressionModel::Property(ident_at(ts, i + 1)->0), skip_junk(ts, i + 2)))
            } else if c == '~' && string_at(ts, i + 1) is Some {
                quoted(string_at(ts, i + 1)->0, ts[i + 1].1, skip_junk(ts, i + 2))
            } else if c == '.' {
                mixin_call_expression(ts, i)
            } else {
                Err(error(ErrorKind::UnexpectedToken, ts[i].1))
            },
            TreeModel::Token(TokenModel::Hash(_)) => mixin_call_expression(ts, i),
            TreeModel::Tree(Delim::Paren, content) => match whole(
                content,
                binary(content, skip_junk(content, 0), 3),
                ts[i].1,
            ) {
                Err(e) => Err(e),
                Ok(value) => Ok((value, skip_junk(ts, i + 1))),
            },
            _ => Err(error(ErrorKind::UnexpectedToken, ts[i].1)),
        }
    }
}

/// What has been read from the content of a group at `span`, if that is all
/// of the content. An empty content is an error at the group; what is left
/// behind the value is an error where it starts.
pub open spec fn whole(content: Trees, parsed: Parsed, span: Span) -> Result<
    ExpressionModel,
    ParseError,
> {
    if skip_junk(content, 0) >= content.len() {
        Err(error(ErrorKind::EmptyExpression, span))
    } else {
        match parsed {
            Err(e) => Err(e),
            Ok((value, end)) => if end < content.len() {
                Err(error(ErrorKind::UnexpectedToken, span_at(content, end)))
            } else {
                Ok(value)
            },
        }
    }
}

/// The call of a mixin as a value that starts at `i`: the selector, and
/// parentheses with the arguments.
pub open spec fn mixin_call_expression(ts: Trees, i: int) -> Parsed
    decreases ts, ts.len() - i, 0int,
{
    let (selector, end) = mixin_selector(ts, i, Seq::empty());
    let paren = skip_junk(ts, end);
    if !(0 <= i <= paren < ts.len()) || selector.len() == 0 {
        Err(error(ErrorKind::UnexpectedToken, span_at(ts, i)))
    } else {
        match ts[paren].0 {
            TreeModel::Tree(Delim::Paren, content) => match call_arguments(content) {
                Err(e) => Err(e),
                Ok((arguments, stop)) => if stop < content.len() {
                    Err(error(left_over(content, stop), span_at(content, stop)))
                } else {
                    Ok(
                        (
                            ExpressionModel::MixinCall(selector, arguments, Seq::empty()),
                            skip_junk(ts, paren + 1),
                        ),
                    )
                },
            },
            _ => Err(error(ErrorKind::UnexpectedToken, span_at(ts, i))),
        }
    }
}

/// The arguments of the call of a mixin that the content of its parentheses
/// holds, and where they end.
pub open spec fn call_arguments(content: Trees) -> Result<
    (Seq<MixinCallArgumentModel>, int),
    ParseError,
>
    decreases content, content.len() + 2, 0int,
{
    mixin_call_arguments(content, 0)
}

/// The kind of the error for what is left at `i` behind a list of arguments:
/// a separator there lacks its argument; anything else is out of place.
pub open spec fn left_over(ts: Trees, i: int) -> ErrorKind {
    if symbol_at(ts, i, ',') || symbol_at(ts, i, ';') {
        ErrorKind::EmptyArgument
    } else {
        ErrorKind::UnexpectedToken
    }
}

/// The operation of precedence `level` that starts at `i`: operands of the
/// level below, joined from the left by the operators of the level. The
/// operands of level 0 are simple values.
pub open spec fn binary(ts: Trees, i: int, level: nat) -> Parsed
    decreases ts, ts.len() - i, 2 * level + 3,
{
    match operand(ts, i, level) {
        Err(e) => Err(e),
        Ok((first, end)) => if i < end <= ts.len() {
            binary_tail(ts, end, level, first)
        } else {
            Err(error(ErrorKind::EmptyExpression, span_at(ts, i)))
        },
    }
}

/// An operand of the operators of precedence `level`.
pub open spec fn operand(ts: Trees, i: int, level: nat) -> Parsed
    decreases ts, ts.len() - i, 2 * level + 2,
{
    if level == 0 {
        simple(ts, i)
    } else {
        binary(ts, i, (level - 1) as nat)
    }
}

/// What the operators of precedence `level` from `i` on make of `left`. An
/// operator behind which no value starts is an error.
pub open spec fn binary_tail(ts: Trees, i: int, level: nat, left: ExpressionModel) -> Parsed
    decreases ts, ts.len() - i, 2 * level + 3,
{
    match operator_at(ts, i, level) {
        None => Ok((left, i)),
        Some((operator, width)) => {
            let next = skip_junk(ts, i + width);
            if !(0 <= i < next <= ts.len() && starts_simple(ts, next)) {
                Err(error(ErrorKind::InvalidOperator, span_at(ts, i)))
            } else {
                match operand(ts, next, level) {
                    Err(e) => Err(e),
                    Ok((right, end)) => if next < end <= ts.len() {
                        binary_tail(
                            ts,
                            end,
                            level,
                            ExpressionModel::BinaryOperation(
                                operator,
                                Box::new(left),
                                Box::new(right),
                            ),
                        )
                    } else {
                        Err(error(ErrorKind::EmptyExpression, span_at(ts, next)))
                    },
                }
            }
        },
    }
}

/// The list of values side by side that starts at `i`: one at least.
pub open spec fn space_list(ts: Trees, i: int) -> Parsed
    decreases ts, ts.len() - i, 10int,
{
    match binary(ts, i, 3) {
        Err(e) => Err(e),
        Ok((first, end)) => if i < end <= ts.len() {
            space_tail(ts, end, seq![first])
        } else {
            Err(error(ErrorKind::EmptyExpression, span_at(ts, i)))
        },
    }
}

/// The list of values side by side that goes on at `i` behind `found`.
pub open spec fn space_tail(ts: Trees, i: int, found: Seq<ExpressionModel>) -> Parsed
    decreases ts, ts.len() - i, 10int,
{
    if starts_simple(ts, i) {
        match binary(ts, i, 3) {
            Err(e) => Err(e),
            Ok((next, end)) => if i < end <= ts.len() {
                space_tail(ts, end, found.push(next))
            } else {
                Err(error(ErrorKind::EmptyExpression, span_at(ts, i)))
            },
        }
    } else {
        Ok((ExpressionModel::SpaceList(found), i))
    }
}

/// The detached ruleset that stands at `i`.
pub open spec fn detached_ruleset(ts: Trees, i: int) -> Parsed {
    match group_at(ts, i, Delim::Brace) {
        Some(content) => match list_of_items(content, 0) {
            Err(e) => Err(e),
            Ok(items) => Ok((ExpressionModel::DetachedRuleset(items), skip_junk(ts, i + 1))),
        },
        None => Err(error(ErrorKind::UnexpectedToken, span_at(ts, i))),
    }
}

/// One member of a list separated by commas that starts at `i`: a detached
/// ruleset where `rulesets` allows it, or a list of values side by side.
pub open spec fn element(ts: Trees, i: int, rulesets: bool) -> Parsed
    decreases ts, ts.len() - i, 11int,
{
    if rulesets && group_at(ts, i, Delim::Brace) is Some {
        detached_ruleset(ts, i)
    } else {
        space_list(ts, i)
    }
}

/// The list separated by commas that starts at `i`: one member at least.
pub open spec fn comma_list(ts: Trees, i: int, rulesets: bool) -> Parsed
    decreases ts, ts.len() - i, 12int,
{
    match element(ts, i, rulesets) {
        Err(e) => Err(e),
        Ok((first, end)) => if i < end <= ts.len() {
            comma_tail(ts, end, rulesets, seq![first])
        } else {
            Err(error(ErrorKind::EmptyExpression, span_at(ts, i)))
        },
    }
}

/// The list separated by commas that goes on at `i` behind `found`. A comma
/// behind which no value starts is an error.
pub open spec fn comma_tail(
    ts: Trees,
    i: int,
    rulesets: bool,
    found: Seq<ExpressionModel>,
) -> Parsed
    decreases ts, ts.len() - i, 12int,
{
    if symbol_at(ts, i, ',') {
        let next = skip_junk(ts, i + 1);
        if !(i < next <= ts.len() && (starts_simple(ts, next) || (rulesets && group_at(
            ts,
            next,
            Delim::Brace,
        ) is Some))) {
            Err(error(ErrorKind::EmptyArgument, span_at(ts, next)))
        } else {
            match element(ts, next, rulesets) {
                Err(e) => Err(e),
                Ok((member, end)) => if next < end <= ts.len() {
                    comma_tail(ts, end, rulesets, found.push(member))
                } else {
                    Err(error(ErrorKind::EmptyExpression, span_at(ts, next)))
                },
            }
        }
    } else {
        Ok((ExpressionModel::CommaList(found), i))
    }
}

/// The list separated by `;` that starts at `i`: one member at least, each a
/// list separated by commas in which detached rulesets may stand.
pub open spec fn semicolon_list(ts: Trees, i: int) -> Parsed
    decreases ts, ts.len() - i, 13int,
{
    match comma_list(ts, i, true) {
        Err(e) => Err(e),
        Ok((first, end)) => if i < end <= ts.len() {
            semicolon_tail(ts, end, seq![first])
        } else {
            Err(error(ErrorKind::EmptyExpression, span_at(ts, i)))
        },
    }
}

/// The list separated by `;` that goes on at `i` behind `found`. A `;`
/// behind which no value starts is an error.
pub open spec fn semicolon_tail(ts: Trees, i: int, found: Seq<ExpressionModel>) -> Parsed
    decreases ts, ts.len() - i, 13int,
{
    if symbol_at(ts, i, ';') {
        let next = skip_junk(ts, i + 1);
        if !(i < next <= ts.len() && starts_value(ts, next)) {
            Err(error(ErrorKind::EmptyArgument, span_at(ts, next)))
        } else {
            match comma_list(ts, next, true) {
                Err(e) => Err(e),
                Ok((member, end)) => if next < end <= ts.len() {
                    semicolon_tail(ts, end, found.push(member))
                } else {
                    Err(error(ErrorKind::EmptyExpression, span_at(ts, next)))
                },
            }
        }
    } else {
        Ok((ExpressionModel::SemicolonList(found), i))
    }
}

/// The value of an argument of a mixin that starts at `i`: a detached
/// ruleset; or, between arguments separated by commas, a list of values side
/// by side; or, between arguments separated by `;`, a list separated by
/// commas.
pub open spec fn argument_value(ts: Trees, i: int, semicolons: bool) -> Parsed
    decreases ts, ts.len() - i, 13int,
{
    if group_at(ts, i, Delim::Brace) is Some {
        detached_ruleset(ts, i)
    } else if semicolons {
        comma_list(ts, i, false)
    } else {
        space_list(ts, i)
    }
}

/// The arguments of a mixin from `i` on, behind those in `found`, and where
/// they end.
///
/// An argument is `@name`, `@name: value`, a value, or as the last one `...`
/// or `@name...`. The arguments are separated by commas until a `;` follows
/// one: it makes one argument of those before it, and from there on the
/// arguments are separated by `;`. A `;` may end the list. Any other
/// separator behind which no argument starts is an error, and so is a `:`
/// behind which no value starts.
pub open spec fn mixin_arguments(
    ts: Trees,
    i: int,
    semicolons: bool,
    found: Seq<ArgumentModel>,
) -> Result<(Seq<ArgumentModel>, int), ParseError>
    decreases ts, ts.len() - i, 14int,
{
    let named = argument_name_at(ts, i);
    let name = ident_at(ts, i + 1);
    let p = if named {
        skip_junk(ts, i + 2)
    } else {
        i
    };
    let colon = named && symbol_at(ts, p, ':');
    let v = if colon {
        skip_junk(ts, p + 1)
    } else {
        p
    };
    if !(0 <= i <= p <= v <= ts.len()) {
        Ok((found, i))
    } else if variadic_at(ts, p) {
        Ok(
            (
                found.push(ArgumentModel::Variadic { name: if named { name } else { None } }),
                skip_junk(ts, p + 3),
            ),
        )
    } else if named && !colon {
        after_argument(
            ts,
            p,
            semicolons,
            found.push(ArgumentModel::Variable { name: name->0, value: None }),
        )
    } else if !starts_value(ts, v) {
        if named {
            Err(error(ErrorKind::EmptyArgument, span_at(ts, v)))
        } else {
            Ok((found, i))
        }
    } else {
        match argument_value(ts, v, semicolons) {
            Err(e) => Err(e),
            Ok((value, end)) => if !(v < end <= ts.len()) {
                Err(error(ErrorKind::EmptyExpression, span_at(ts, v)))
            } else if named {
                after_argument(
                    ts,
                    end,
                    semicolons,
                    found.push(ArgumentModel::Variable { name: name->0, value: Some(value) }),
                )
            } else {
                after_argument(ts, end, semicolons, found.push(ArgumentModel::Literal { value }))
            },
        }
    }
}

/// The arguments of a mixin that follow at `i` behind the argument that ends
/// there, `found` being those up to it.
pub open spec fn after_argument(
    ts: Trees,
    i: int,
    semicolons: bool,
    found: Seq<ArgumentModel>,
) -> Result<(Seq<ArgumentModel>, int), ParseError>
    decreases ts, ts.len() - i, 0int,
{
    let next = skip_junk(ts, i + 1);
    if !(0 <= i < next <= ts.len()) {
        Ok((found, i))
    } else if symbol_at(ts, i, ',') && !semicolons {
        if starts_argument(ts, next) {
            mixin_arguments(ts, next, false, found)
        } else {
            Err(error(ErrorKind::EmptyArgument, span_at(ts, next)))
        }
    } else if symbol_at(ts, i, ';') {
        let folded = if semicolons {
            Some(found)
        } else {
            match to_semicolon_separated(found) {
                Ok(argument) => Some(seq![argument]),
                Err(_) => None,
            }
        };
        if folded is None {
            Err(error(ErrorKind::UnexpectedToken, span_at(ts, i)))
        } else if next >= ts.len() {
            Ok((folded->0, next))
        } else if starts_argument(ts, next) {
            mixin_arguments(ts, next, true, folded->0)
        } else {
            Err(error(ErrorKind::EmptyArgument, span_at(ts, next)))
        }
    } else {
        Ok((found, i))
    }
}

/// The arguments of a mixin from `i` on, the junk there skipped, and where
/// they end.
pub open spec fn arguments_from(ts: Trees, i: int) -> Result<(Seq<ArgumentModel>, int), ParseError>
    decreases ts, ts.len() + 1, 0int,
{
    if 0 <= skip_junk(ts, i) <= ts.len() {
        mixin_arguments(ts, skip_junk(ts, i), false, Seq::empty())
    } else {
        Ok((Seq::empty(), i))
    }
}

/// An argument as a parameter of the definition of a mixin.
pub open spec fn as_parameter(argument: ArgumentModel) -> MixinDeclarationArgumentModel {
    match argument {
        ArgumentModel::Variable { name, value } => MixinDeclarationArgumentModel::Variable {
            name,
            default: value,
        },
        ArgumentModel::Literal { value } => MixinDeclarationArgumentModel::Literal { value },
        ArgumentModel::Variadic { name } => MixinDeclarationArgumentModel::Variadic { name },
    }
}

/// An argument as an argument of the call of a mixin: a name without a value
/// is the variable of that name as a value; `...` cannot stand in a call.
pub open spec fn as_call_argument(argument: ArgumentModel) -> Option<MixinCallArgumentModel> {
    match argument {
        ArgumentModel::Variable { name, value: Some(value) } => Some(
            MixinCallArgumentModel { name: Some(name), value },
        ),
        ArgumentModel::Variable { name, value: None } => Some(
            MixinCallArgumentModel { name: None, value: ExpressionModel::Variable(name) },
        ),
        ArgumentModel::Literal { value } => Some(MixinCallArgumentModel { name: None, value }),
        ArgumentModel::Variadic { .. } => None,
    }
}

/// The parameters of the definition of a mixin from `i` on, and where they
/// end.
pub open spec fn mixin_declaration_arguments(ts: Trees, i: int) -> Result<
    (Seq<MixinDeclarationArgumentModel>, int),
    ParseError,
> {
    match arguments_from(ts, i) {
        Err(e) => Err(e),
        Ok((arguments, end)) => Ok(
            (Seq::new(arguments.len(), |k: int| as_parameter(arguments[k])), end),
        ),
    }
}

/// Whether each of `arguments` can stand in the call of a mixin.
pub open spec fn all_callable(arguments: Seq<ArgumentModel>) -> bool {
    forall|k: int|
        0 <= k < arguments.len() ==> as_call_argument(#[trigger] arguments[k]) is Some
}

/// The arguments of the call of a mixin from `i` on, and where they end.
/// `...` among them is an error.
pub open spec fn mixin_call_arguments(ts: Trees, i: int) -> Result<
    (Seq<MixinCallArgumentModel>, int),
    ParseError,
>
    decreases ts, ts.len() + 1, 1int,
{
    match arguments_from(ts, i) {
        Err(e) => Err(e),
        Ok((arguments, end)) => if all_callable(arguments) {
            Ok((Seq::new(arguments.len(), |k: int| as_call_argument(arguments[k])->0), end))
        } else {
            Err(error(ErrorKind::UnexpectedToken, whole_span(ts)))
        },
    }
}

/// The value of a declaration: a list separated by commas of lists of values
/// side by side.
pub open spec fn declaration_value(ts: Trees, i: int) -> Parsed {
    comma_list(ts, skip_junk(ts, i), false)
}

/// The value of the declaration of a variable: a detached ruleset, or the
/// value of a declaration.
pub open spec fn variable_declaration_value(ts: Trees, i: int) -> Parsed {
    if group_at(ts, skip_junk(ts, i), Delim::Brace) is Some {
        detached_ruleset(ts, skip_junk(ts, i))
    } else {
        declaration_value(ts, i)
    }
}

/// The value of an argument between commas: a list of values side by side.
pub open spec fn comma_separated_arg_value(ts: Trees, i: int) -> Parsed {
    space_list(ts, skip_junk(ts, i))
}

/// The value of an argument between `;`: a list separated by commas.
pub open spec fn semicolon_separated_arg_value(ts: Trees, i: int) -> Parsed {
    comma_list(ts, skip_junk(ts, i), false)
}

/// The expression of a guard: an operation of `and` and `or`.
pub open spec fn boolean_expression(ts: Trees, i: int) -> Parsed {
    binary(ts, skip_junk(ts, i), 3)
}

/// The arguments of the call of a function: a list separated by `;`.
pub open spec fn function_args(ts: Trees, i: int) -> Parsed {
    semicolon_list(ts, skip_junk(ts, i))
}

/// The call of a mixin that starts at `i`: the segments of its selector and
/// its arguments, and where the call ends.
pub open spec fn mixin_call(ts: Trees, i: int) -> Result<
    ((Seq<SimpleSelectorModel>, Seq<MixinCallArgumentModel>), int),
    ParseError,
> {
    match mixin_call_expression(ts, i) {
        Err(e) => Err(e),
        Ok((ExpressionModel::MixinCall(selector, arguments, _), end)) => Ok(
            ((selector, arguments), end),
        ),
        Ok(_) => Err(error(ErrorKind::UnexpectedToken, span_at(ts, i))),
    }
}

/// The call of a mixin as an item that starts at `i`: the call and `;`.
pub open spec fn mixin_call_item(ts: Trees, i: int) -> Result<
    ((Seq<SimpleSelectorModel>, Seq<MixinCallArgumentModel>), int),
    ParseError,
> {
    match mixin_call(ts, i) {
        Err(e) => Err(e),
        Ok((call, end)) => if symbol_at(ts, end, ';') {
            Ok((call, skip_junk(ts, end + 1)))
        } else {
            Err(error(ErrorKind::ExpectedSemicolon, span_at(ts, end)))
        },
    }
}

/// The parameters that the content of the parentheses of a definition
/// holds. What is left behind them is an error.
pub open spec fn parameters(content: Trees) -> Result<
    Seq<MixinDeclarationArgumentModel>,
    ParseError,
> {
    match mixin_declaration_arguments(content, 0) {
        Err(e) => Err(e),
        Ok((arguments, end)) => if end < content.len() {
            Err(error(left_over(content, end), span_at(content, end)))
        } else {
            Ok(arguments)
        },
    }
}

/// The expression that a guard holds. What is left behind it is an error.
pub open spec fn guard_expression(guard: Trees) -> Result<ExpressionModel, ParseError> {
    match boolean_expression(guard, 0) {
        Err(e) => Err(e),
        Ok((value, end)) => if end < guard.len() {
            Err(error(ErrorKind::UnexpectedToken, span_at(guard, end)))
        } else {
            Ok(value)
        },
    }
}

/// The definition of a mixin that starts at `i`, its parameters and its
/// guard read, and where it ends.
pub open spec fn mixin_declaration(ts: Trees, i: int) -> Result<
    (MixinDeclarationModel, int),
    ParseError,
> {
    match mixin_rule(ts, i) {
        Err(e) => Err(e),
        Ok((ItemModel::MixinRule { name, arguments, guard, block }, end)) => match parameters(
            arguments,
        ) {
            Err(e) => Err(e),
            Ok(arguments) => match guard {
                None => Ok(
                    (
                        MixinDeclarationModel {
                            selector: name,
                            arguments,
                            block: GuardedBlockModel { guard: None, items: block },
                        },
                        end,
                    ),
                ),
                Some(guard) => match guard_expression(guard) {
                    Err(e) => Err(e),
                    Ok(value) => Ok(
                        (
                            MixinDeclarationModel {
                                selector: name,
                                arguments,
                                block: GuardedBlockModel { guard: Some(value), items: block },
                            },
                            end,
                        ),
                    ),
                },
            },
        },
        Ok(_) => Err(error(ErrorKind::UnknownItemShape, span_at(ts, i))),
    }
}

} // verus!
