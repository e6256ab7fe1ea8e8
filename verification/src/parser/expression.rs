//! Values: lists, operations, literals, references and calls.

use super::mixin::{as_value, mixin_call};
use super::string::string;
use super::{
    error, group, ident, is_ident, is_symbol, junk, list_of_items, span_at, symbol, ErrorKind,
    ParseError,
};
use crate::ast::expression::{
    expressions_view, list, lookups_view, well_formed, BinaryOperator, Expression, ExpressionModel,
    ListKind, Lookup,
};
use crate::lexer::{trees_view, Delim, Number, Span, Spanned, Token, TokenTree};
use vstd::prelude::*;

pub mod rules;

verus! {

/// What the outcome of reading a value holds.
pub open spec fn parsed(r: Result<(Expression, usize), ParseError>) -> rules::Parsed {
    match r {
        Ok((value, end)) => Ok((value@, end as int)),
        Err(e) => Err(e),
    }
}

/// Whether a value that was read from `from` on is well-formed, and ends
/// behind `from` and within `len`.
pub open spec fn sound(r: Result<(Expression, usize), ParseError>, from: int, len: int) -> bool {
    r matches Ok((value, end)) ==> from < end <= len && well_formed(value@)
}

/// Whether a string stands at `i`.
fn string_at(tts: &[Spanned<TokenTree>], i: usize) -> (r: bool)
    ensures
        r == (rules::string_at(trees_view(tts@), i as int) is Some),
{
    i < tts.len() && match &tts[i].0 {
        TokenTree::Token(Token::String(_)) => true,
        _ => false,
    }
}

/// Whether a simple value can start at `i`.
pub fn starts_simple(tts: &[Spanned<TokenTree>], i: usize) -> (r: bool)
    ensures
        r == rules::starts_simple(trees_view(tts@), i as int),
{
    if i >= tts.len() {
        return false;
    }
    match &tts[i].0 {
        TokenTree::Token(Token::Number(_)) => true,
        TokenTree::Token(Token::String(_)) => true,
        TokenTree::Token(Token::Ident(_)) => true,
        TokenTree::Token(Token::Hash(_)) => true,
        TokenTree::Token(Token::Symbol(c)) => {
            ((*c == '@' || *c == '$' || *c == '.') && ident(tts, i + 1).is_some()) || (*c == '~'
                && string_at(tts, i + 1))
        },
        TokenTree::Tree(delim, _) => match delim {
            Delim::Paren => true,
            _ => false,
        },
        _ => false,
    }
}

/// Whether a value can start at `i`.
pub fn starts_value(tts: &[Spanned<TokenTree>], i: usize) -> (r: bool)
    ensures
        r == rules::starts_value(trees_view(tts@), i as int),
{
    starts_simple(tts, i) || group(tts, i, Delim::Brace).is_some()
}

/// The number that stands at `i`, with its unit, and where it ends.
pub fn numeric(tts: &[Spanned<TokenTree>], i: usize, number: &Number) -> (r: (Expression, usize))
    requires
        i < tts.len(),
    ensures
        (r.0@, r.1 as int) == rules::numeric(trees_view(tts@), i as int, number@),
        i < r.1 <= tts.len(),
        well_formed(r.0@),
{
    match ident(tts, i + 1) {
        Some(unit) => (
            Expression::Numeric(number.clone(), Some(unit.clone())),
            junk(tts, i + 2),
        ),
        None => if symbol(tts, i + 1, '%') {
            let mut unit = String::new();
            unit.push('%');
            assert(unit@ =~= rules::percent());
            (Expression::Numeric(number.clone(), Some(unit)), junk(tts, i + 2))
        } else {
            (Expression::Numeric(number.clone(), None), junk(tts, i + 1))
        },
    }
}

/// The string with the content `text` at `span`, as a value that ends at
/// `end`.
fn quoted(text: &String, span: Span, end: usize) -> (r: Result<(Expression, usize), ParseError>)
    ensures
        parsed(r) == rules::quoted(text@, span, end as int),
        r matches Ok((value, e)) ==> e == end && well_formed(value@),
{
    match string(text.as_str(), span) {
        Ok(value) => Ok((value, end)),
        Err(e) => Err(e),
    }
}

/// The key that the content of a lookup holds.
pub fn lookup_key(content: &[Spanned<TokenTree>]) -> (r: Result<Lookup, ParseError>)
    ensures
        match r {
            Ok(key) => rules::lookup_key(trees_view(content@)) == Ok::<_, ParseError>(key@),
            Err(e) => rules::lookup_key(trees_view(content@)) == Err::<
                crate::ast::expression::LookupModel,
                ParseError,
            >(e),
        },
{
    let n = content.len();
    let k = junk(content, 0);
    let key: Lookup;
    let width: usize;
    if k >= n {
        key = Lookup::Last;
        width = 0;
    } else if symbol(content, k, '$') && symbol(content, k + 1, '@') && ident(
        content,
        k + 2,
    ).is_some() {
        match ident(content, k + 2) {
            Some(name) => {
                key = Lookup::VariableProperty(name.clone());
                width = 3;
            },
            None => {
                return Err(error(ErrorKind::UnbalancedLookup, span_at(content, k)));
            },
        }
    } else if symbol(content, k, '@') && symbol(content, k + 1, '@') && ident(
        content,
        k + 2,
    ).is_some() {
        match ident(content, k + 2) {
            Some(name) => {
                key = Lookup::VariableVariable(name.clone());
                width = 3;
            },
            None => {
                return Err(error(ErrorKind::UnbalancedLookup, span_at(content, k)));
            },
        }
    } else if symbol(content, k, '$') && ident(content, k + 1).is_some() {
        match ident(content, k + 1) {
            Some(name) => {
                key = Lookup::Property(name.clone());
                width = 2;
            },
            None => {
                return Err(error(ErrorKind::UnbalancedLookup, span_at(content, k)));
            },
        }
    } else if symbol(content, k, '@') && ident(content, k + 1).is_some() {
        match ident(content, k + 1) {
            Some(name) => {
                key = Lookup::Variable(name.clone());
                width = 2;
            },
            None => {
                return Err(error(ErrorKind::UnbalancedLookup, span_at(content, k)));
            },
        }
    } else {
        match ident(content, k) {
            Some(name) => {
                key = Lookup::Ident(name.clone());
                width = 1;
            },
            None => {
                return Err(error(ErrorKind::UnbalancedLookup, span_at(content, k)));
            },
        }
    }
    let end = junk(content, k + width);
    if end < n {
        Err(error(ErrorKind::UnbalancedLookup, span_at(content, end)))
    } else {
        Ok(key)
    }
}

/// The lookups from `start` on, and where they end.
pub fn lookups(tts: &[Spanned<TokenTree>], start: usize) -> (r: Result<
    (Vec<Lookup>, usize),
    ParseError,
>)
    requires
        start <= tts.len(),
    ensures
        match r {
            Ok((found, end)) => rules::lookups(trees_view(tts@), start as int, Seq::empty())
                == Ok::<_, ParseError>((lookups_view(found@), end as int)) && start <= end
                <= tts.len(),
            Err(e) => rules::lookups(trees_view(tts@), start as int, Seq::empty()) == Err::<
                (Seq<crate::ast::expression::LookupModel>, int),
                ParseError,
            >(e),
        },
{
    let mut found: Vec<Lookup> = Vec::new();
    let mut i = start;
    assert(lookups_view(found@) =~= Seq::empty());
    loop
        invariant
            start <= i <= tts.len(),
            rules::lookups(trees_view(tts@), start as int, Seq::empty()) == rules::lookups(
                trees_view(tts@),
                i as int,
                lookups_view(found@),
            ),
        decreases tts.len() - i,
    {
        match group(tts, i, Delim::Bracket) {
            None => {
                return Ok((found, i));
            },
            Some(content) => match lookup_key(content.as_slice()) {
                Err(e) => {
                    return Err(e);
                },
                Ok(key) => {
                    assert(lookups_view(found@.push(key)) =~= lookups_view(found@).push(key@));
                    found.push(key);
                    i = junk(tts, i + 1);
                },
            },
        }
    }
}

/// The variable `@name` that stands at `i`, with the lookups behind it.
/// Where no `@` and name stand at `i`, the tree there is unexpected.
pub fn variable_or_lookup(tts: &[Spanned<TokenTree>], i: usize) -> (r: Result<
    (Expression, usize),
    ParseError,
>)
    ensures
        parsed(r) == rules::variable_or_lookup(trees_view(tts@), i as int),
        sound(r, i as int, tts.len() as int),
{
    if !symbol(tts, i, '@') {
        return Err(error(ErrorKind::UnexpectedToken, span_at(tts, i)));
    }
    match ident(tts, i + 1) {
        None => Err(error(ErrorKind::UnexpectedToken, span_at(tts, i))),
        Some(name) => match lookups(tts, junk(tts, i + 2)) {
            Err(e) => Err(e),
            Ok((found, end)) => if found.len() == 0 {
                Ok((Expression::Variable(name.clone()), end))
            } else {
                Ok((Expression::VariableLookup(name.clone(), found), end))
            },
        },
    }
}

/// The operator of precedence `level` that stands at `i`, and the number of
/// tokens that it is made of.
pub fn operator_at(tts: &[Spanned<TokenTree>], i: usize, level: u8) -> (r: Option<
    (BinaryOperator, usize),
>)
    ensures
        match r {
            Some((operator, width)) => rules::operator_at(trees_view(tts@), i as int, level as nat)
                == Some((operator, width as int)) && 1 <= width && i + width <= tts.len(),
            None => rules::operator_at(trees_view(tts@), i as int, level as nat) is None,
        },
{
    if i >= tts.len() {
        return None;
    }
    let tree = &tts[i].0;
    if level == 0 {
        if is_symbol(tree, '*') {
            Some((BinaryOperator::Multiply, 1))
        } else if is_symbol(tree, '/') {
            Some((BinaryOperator::Divide, 1))
        } else {
            None
        }
    } else if level == 1 {
        if is_symbol(tree, '+') {
            Some((BinaryOperator::Add, 1))
        } else if is_symbol(tree, '-') {
            Some((BinaryOperator::Subtract, 1))
        } else {
            None
        }
    } else if level == 2 {
        if is_symbol(tree, '=') {
            Some((BinaryOperator::Equality, 1))
        } else if is_symbol(tree, '<') {
            if symbol(tts, i + 1, '=') {
                Some((BinaryOperator::LessThanOrEqualTo, 2))
            } else {
                Some((BinaryOperator::LessThan, 1))
            }
        } else if is_symbol(tree, '>') {
            if symbol(tts, i + 1, '=') {
                Some((BinaryOperator::GreaterThanOrEqualTo, 2))
            } else {
                Some((BinaryOperator::GreaterThan, 1))
            }
        } else {
            None
        }
    } else if level == 3 {
        if is_ident(tree, "and") {
            Some((BinaryOperator::And, 1))
        } else if is_ident(tree, "or") {
            Some((BinaryOperator::Or, 1))
        } else {
            None
        }
    } else {
        None
    }
}

/// What has been read from the content of a group at `span`, if that is all
/// of the content.
fn whole(content: &[Spanned<TokenTree>], r: Result<(Expression, usize), ParseError>, span: Span) -> (w:
    Result<Expression, ParseError>)
    requires
        r matches Ok((value, _)) ==> well_formed(value@),
    ensures
        w matches Ok(value) ==> well_formed(value@),
        match w {
            Ok(value) => rules::whole(trees_view(content@), parsed(r), span) == Ok::<
                ExpressionModel,
                ParseError,
            >(value@),
            Err(e) => rules::whole(trees_view(content@), parsed(r), span) == Err::<
                ExpressionModel,
                ParseError,
            >(e),
        },
{
    if junk(content, 0) >= content.len() {
        return Err(error(ErrorKind::EmptyExpression, span));
    }
    match r {
        Err(e) => Err(e),
        Ok((value, end)) => if end < content.len() {
            Err(error(ErrorKind::UnexpectedToken, span_at(content, end)))
        } else {
            Ok(value)
        },
    }
}

/// The simple value that starts at `i`, and where it ends.
#[verifier::rlimit(30)]
pub fn simple(tts: &[Spanned<TokenTree>], i: usize) -> (r: Result<(Expression, usize), ParseError>)
    requires
        i <= tts.len(),
    ensures
        parsed(r) == rules::simple(trees_view(tts@), i as int),
        sound(r, i as int, tts.len() as int),
    decreases tts@, tts@.len() - i, 1int,
{
    let n = tts.len();
    if i >= n {
        return Err(error(ErrorKind::EmptyExpression, span_at(tts, i)));
    }
    match &tts[i].0 {
        TokenTree::Token(Token::Number(number)) => Ok(numeric(tts, i, number)),
        TokenTree::Token(Token::String(text)) => quoted(text, tts[i].1, junk(tts, i + 1)),
        TokenTree::Token(Token::Ident(name)) => match group(tts, i + 1, Delim::Paren) {
            Some(content) => {
                let start = junk(content.as_slice(), 0);
                let arguments = semicolon_list(content.as_slice(), start);
                match whole(content.as_slice(), arguments, tts[i + 1].1) {
                    Err(e) => Err(e),
                    Ok(arguments) => Ok(
                        (
                            Expression::FunctionCall(name.clone(), Box::new(arguments)),
                            junk(tts, i + 2),
                        ),
                    ),
                }
            },
            None => Ok((Expression::Ident(name.clone()), junk(tts, i + 1))),
        },
        TokenTree::Token(Token::Symbol(c)) => {
            if *c == '@' && ident(tts, i + 1).is_some() {
                variable_or_lookup(tts, i)
            } else if *c == '$' && ident(tts, i + 1).is_some() {
                match ident(tts, i + 1) {
                    Some(name) => Ok((Expression::Property(name.clone()), junk(tts, i + 2))),
                    None => Err(error(ErrorKind::UnexpectedToken, tts[i].1)),
                }
            } else if *c == '~' && string_at(tts, i + 1) {
                match &tts[i + 1].0 {
                    TokenTree::Token(Token::String(text)) => quoted(
                        text,
                        tts[i + 1].1,
                        junk(tts, i + 2),
                    ),
                    _ => Err(error(ErrorKind::UnexpectedToken, tts[i].1)),
                }
            } else if *c == '.' {
                as_value(mixin_call(tts, i))
            } else {
                Err(error(ErrorKind::UnexpectedToken, tts[i].1))
            }
        },
        TokenTree::Token(Token::Hash(_)) => as_value(mixin_call(tts, i)),
        TokenTree::Tree(delim, content) => match group(tts, i, Delim::Paren) {
            Some(content) => {
                let start = junk(content.as_slice(), 0);
                let value = binary(content.as_slice(), start, 3);
                match whole(content.as_slice(), value, tts[i].1) {
                    Err(e) => Err(e),
                    Ok(value) => Ok((value, junk(tts, i + 1))),
                }
            },
            None => Err(error(ErrorKind::UnexpectedToken, tts[i].1)),
        },
        _ => Err(error(ErrorKind::UnexpectedToken, tts[i].1)),
    }
}

/// An operand of the operators of precedence `level`.
pub fn operand(tts: &[Spanned<TokenTree>], i: usize, level: u8) -> (r: Result<
    (Expression, usize),
    ParseError,
>)
    requires
        i <= tts.len(),
        level <= 3,
    ensures
        parsed(r) == rules::operand(trees_view(tts@), i as int, level as nat),
        sound(r, i as int, tts.len() as int),
    decreases tts@, tts@.len() - i, 2 * level + 2,
{
    if level == 0 {
        simple(tts, i)
    } else {
        binary(tts, i, level - 1)
    }
}

/// The operation of precedence `level` that starts at `i`, and where it
/// ends.
pub fn binary(tts: &[Spanned<TokenTree>], i: usize, level: u8) -> (r: Result<
    (Expression, usize),
    ParseError,
>)
    requires
        i <= tts.len(),
        level <= 3,
    ensures
        parsed(r) == rules::binary(trees_view(tts@), i as int, level as nat),
        sound(r, i as int, tts.len() as int),
    decreases tts@, tts@.len() - i, 2 * level + 3,
{
    let n = tts.len();
    let (first, end) = match operand(tts, i, level) {
        Err(e) => {
            return Err(e);
        },
        Ok(r) => r,
    };
    let mut left = first;
    let mut pos = end;
    loop
        invariant
            n == tts.len(),
            level <= 3,
            i < pos <= n,
            well_formed(left@),
            rules::binary(trees_view(tts@), i as int, level as nat) == rules::binary_tail(
                trees_view(tts@),
                pos as int,
                level as nat,
                left@,
            ),
        decreases n - pos,
    {
        match operator_at(tts, pos, level) {
            None => {
                return Ok((left, pos));
            },
            Some((operator, width)) => {
                let next = junk(tts, pos + width);
                if !starts_simple(tts, next) {
                    return Err(error(ErrorKind::InvalidOperator, span_at(tts, pos)));
                }
                match operand(tts, next, level) {
                    Err(e) => {
                        return Err(e);
                    },
                    Ok((right, end)) => {
                        left = Expression::BinaryOperation(
                            operator,
                            Box::new(left),
                            Box::new(right),
                        );
                        pos = end;
                    },
                }
            },
        }
    }
}

/// The list of values side by side that starts at `i`, and where it ends.
pub fn space_list(tts: &[Spanned<TokenTree>], i: usize) -> (r: Result<
    (Expression, usize),
    ParseError,
>)
    requires
        i <= tts.len(),
    ensures
        parsed(r) == rules::space_list(trees_view(tts@), i as int),
        sound(r, i as int, tts.len() as int),
    decreases tts@, tts@.len() - i, 10int,
{
    let n = tts.len();
    let (first, end) = match binary(tts, i, 3) {
        Err(e) => {
            return Err(e);
        },
        Ok(r) => r,
    };
    let mut found: Vec<Expression> = Vec::new();
    assert(expressions_view(found@.push(first)) =~= seq![first@]);
    found.push(first);
    let mut pos = end;
    loop
        invariant
            n == tts.len(),
            i < pos <= n,
            found.len() >= 1,
            forall|k: int| 0 <= k < found.len() ==> well_formed((#[trigger] found[k])@),
            rules::space_list(trees_view(tts@), i as int) == rules::space_tail(
                trees_view(tts@),
                pos as int,
                expressions_view(found@),
            ),
        decreases n - pos,
    {
        if !starts_simple(tts, pos) {
            return Ok((list(ListKind::Space, found), pos));
        }
        match binary(tts, pos, 3) {
            Err(e) => {
                return Err(e);
            },
            Ok((next, end)) => {
                assert(expressions_view(found@.push(next)) =~= expressions_view(found@).push(
                    next@,
                ));
                found.push(next);
                pos = end;
            },
        }
    }
}

/// The detached ruleset that stands at `i`, and where it ends.
pub fn detached_ruleset(tts: &[Spanned<TokenTree>], i: usize) -> (r: Result<
    (Expression, usize),
    ParseError,
>)
    ensures
        parsed(r) == rules::detached_ruleset(trees_view(tts@), i as int),
        sound(r, i as int, tts.len() as int),
{
    match group(tts, i, Delim::Brace) {
        Some(content) => match list_of_items(content.as_slice(), 0) {
            Err(e) => Err(e),
            Ok(items) => Ok((Expression::DetachedRuleset(items), junk(tts, i + 1))),
        },
        None => Err(error(ErrorKind::UnexpectedToken, span_at(tts, i))),
    }
}

/// One member of a list separated by commas that starts at `i`.
pub fn element(tts: &[Spanned<TokenTree>], i: usize, rulesets: bool) -> (r: Result<
    (Expression, usize),
    ParseError,
>)
    requires
        i <= tts.len(),
    ensures
        parsed(r) == rules::element(trees_view(tts@), i as int, rulesets),
        sound(r, i as int, tts.len() as int),
    decreases tts@, tts@.len() - i, 11int,
{
    if rulesets && group(tts, i, Delim::Brace).is_some() {
        detached_ruleset(tts, i)
    } else {
        space_list(tts, i)
    }
}

/// The list separated by commas that starts at `i`, and where it ends.
pub fn comma_list(tts: &[Spanned<TokenTree>], i: usize, rulesets: bool) -> (r: Result<
    (Expression, usize),
    ParseError,
>)
    requires
        i <= tts.len(),
    ensures
        parsed(r) == rules::comma_list(trees_view(tts@), i as int, rulesets),
        sound(r, i as int, tts.len() as int),
    decreases tts@, tts@.len() - i, 12int,
{
    let n = tts.len();
    let (first, end) = match element(tts, i, rulesets) {
        Err(e) => {
            return Err(e);
        },
        Ok(r) => r,
    };
    let mut found: Vec<Expression> = Vec::new();
    assert(expressions_view(found@.push(first)) =~= seq![first@]);
    found.push(first);
    let mut pos = end;
    loop
        invariant
            n == tts.len(),
            i < pos <= n,
            found.len() >= 1,
            forall|k: int| 0 <= k < found.len() ==> well_formed((#[trigger] found[k])@),
            rules::comma_list(trees_view(tts@), i as int, rulesets) == rules::comma_tail(
                trees_view(tts@),
                pos as int,
                rulesets,
                expressions_view(found@),
            ),
        decreases n - pos,
    {
        if !symbol(tts, pos, ',') {
            return Ok((list(ListKind::Comma, found), pos));
        }
        let next = junk(tts, pos + 1);
        if !(starts_simple(tts, next) || (rulesets && group(tts, next, Delim::Brace).is_some())) {
            return Err(error(ErrorKind::EmptyArgument, span_at(tts, next)));
        }
        match element(tts, next, rulesets) {
            Err(e) => {
                return Err(e);
            },
            Ok((member, end)) => {
                assert(expressions_view(found@.push(member)) =~= expressions_view(found@).push(
                    member@,
                ));
                found.push(member);
                pos = end;
            },
        }
    }
}

/// The list separated by `;` that starts at `i`, and where it ends.
pub fn semicolon_list(tts: &[Spanned<TokenTree>], i: usize) -> (r: Result<
    (Expression, usize),
    ParseError,
>)
    requires
        i <= tts.len(),
    ensures
        parsed(r) == rules::semicolon_list(trees_view(tts@), i as int),
        sound(r, i as int, tts.len() as int),
    decreases tts@, tts@.len() - i, 13int,
{
    let n = tts.len();
    let (first, end) = match comma_list(tts, i, true) {
        Err(e) => {
            return Err(e);
        },
        Ok(r) => r,
    };
    let mut found: Vec<Expression> = Vec::new();
    assert(expressions_view(found@.push(first)) =~= seq![first@]);
    found.push(first);
    let mut pos = end;
    loop
        invariant
            n == tts.len(),
            i < pos <= n,
            found.len() >= 1,
            forall|k: int| 0 <= k < found.len() ==> well_formed((#[trigger] found[k])@),
            rules::semicolon_list(trees_view(tts@), i as int) == rules::semicolon_tail(
                trees_view(tts@),
                pos as int,
                expressions_view(found@),
            ),
        decreases n - pos,
    {
        if !symbol(tts, pos, ';') {
            return Ok((list(ListKind::Semicolon, found), pos));
        }
        let next = junk(tts, pos + 1);
        if !starts_value(tts, next) {
            return Err(error(ErrorKind::EmptyArgument, span_at(tts, next)));
        }
        match comma_list(tts, next, true) {
            Err(e) => {
                return Err(e);
            },
            Ok((member, end)) => {
                assert(expressions_view(found@.push(member)) =~= expressions_view(found@).push(
                    member@,
                ));
                found.push(member);
                pos = end;
            },
        }
    }
}

/// Reads the value of a declaration from `i` on: a list separated by commas
/// of lists of values side by side. Gives the value and where it ends.
pub fn declaration_value(tts: &[Spanned<TokenTree>], i: usize) -> (r: Result<
    (Expression, usize),
    ParseError,
>)
    requires
        i <= tts.len(),
    ensures
        parsed(r) == rules::declaration_value(trees_view(tts@), i as int),
        sound(r, i as int, tts.len() as int),
{
    comma_list(tts, junk(tts, i), false)
}

/// Reads the value of the declaration of a variable from `i` on: a detached
/// ruleset, or the value of a declaration.
pub fn variable_declaration_value(tts: &[Spanned<TokenTree>], i: usize) -> (r: Result<
    (Expression, usize),
    ParseError,
>)
    requires
        i <= tts.len(),
    ensures
        parsed(r) == rules::variable_declaration_value(trees_view(tts@), i as int),
        sound(r, i as int, tts.len() as int),
{
    let start = junk(tts, i);
    if group(tts, start, Delim::Brace).is_some() {
        detached_ruleset(tts, start)
    } else {
        declaration_value(tts, i)
    }
}

/// Reads the value of an argument between commas from `i` on: a list of
/// values side by side.
pub fn comma_separated_arg_value(tts: &[Spanned<TokenTree>], i: usize) -> (r: Result<
    (Expression, usize),
    ParseError,
>)
    requires
        i <= tts.len(),
    ensures
        parsed(r) == rules::comma_separated_arg_value(trees_view(tts@), i as int),
        sound(r, i as int, tts.len() as int),
{
    space_list(tts, junk(tts, i))
}

/// Reads the value of an argument between `;` from `i` on: a list separated
/// by commas.
pub fn semicolon_separated_arg_value(tts: &[Spanned<TokenTree>], i: usize) -> (r: Result<
    (Expression, usize),
    ParseError,
>)
    requires
        i <= tts.len(),
    ensures
        parsed(r) == rules::semicolon_separated_arg_value(trees_view(tts@), i as int),
        sound(r, i as int, tts.len() as int),
{
    comma_list(tts, junk(tts, i), false)
}

/// Reads the expression of a guard from `i` on: an operation of `and` and
/// `or`, whose operands are comparisons.
pub fn boolean_expression(tts: &[Spanned<TokenTree>], i: usize) -> (r: Result<
    (Expression, usize),
    ParseError,
>)
    requires
        i <= tts.len(),
    ensures
        parsed(r) == rules::boolean_expression(trees_view(tts@), i as int),
        sound(r, i as int, tts.len() as int),
{
    binary(tts, junk(tts, i), 3)
}

/// Reads the arguments of the call of a function from `i` on: a list
/// separated by `;` of lists separated by commas.
pub fn function_args(tts: &[Spanned<TokenTree>], i: usize) -> (r: Result<
    (Expression, usize),
    ParseError,
>)
    requires
        i <= tts.len(),
    ensures
        parsed(r) == rules::function_args(trees_view(tts@), i as int),
        sound(r, i as int, tts.len() as int),
{
    semicolon_list(tts, junk(tts, i))
}

/// The name that stands behind `@` at `i`, and the index behind it and the
/// junk that follows it.
pub fn at_keyword(tts: &[Spanned<TokenTree>], i: usize) -> (r: Option<(String, usize)>)
    ensures
        match r {
            Some((name, end)) => super::rules::symbol_at(trees_view(tts@), i as int, '@')
                && super::rules::ident_at(trees_view(tts@), i + 1) == Some(name@) && end
                == super::rules::skip_junk(trees_view(tts@), i + 2),
            None => !(super::rules::symbol_at(trees_view(tts@), i as int, '@')
                && super::rules::ident_at(trees_view(tts@), i + 1) is Some),
        },
{
    match super::at_ident(tts, i) {
        Some(name) => Some((name.clone(), junk(tts, i + 2))),
        None => None,
    }
}

} // verus!
