//! Mixins: their arguments, their calls and their definitions.

use super::expression::rules::ArgumentModel;
use super::expression::{
    binary, comma_list, detached_ruleset, parsed, rules, sound, space_list, starts_value,
};
use super::{
    at_ident, error, group, is_symbol, junk, mixin_rule, mixin_segment, span_at, symbol, ErrorKind,
    ParseError,
};
use crate::ast::expression::{
    arguments_view, clone_optional_expression, expressions_view, list, mixin_call_value,
    optional_expression,
    optional_text, optional_well_formed, parameters_view, well_formed, Expression, ExpressionModel, GuardedBlock, ListKind, MixinCallArgument,
    MixinCallArgumentModel, MixinCallExpression, MixinDeclaration, MixinDeclarationArgument,
    MixinDeclarationArgumentModel, MixinDeclarationModel,
};
use crate::ast::selector::{simple_selectors_view, SimpleSelector, SimpleSelectorModel};
use crate::ast::{Item, ListOfComponentValues, QualifiedRule};
use crate::lexer::{trees_view, Delim, Span, Spanned, TokenTree};
use vstd::prelude::*;

verus! {

/// An argument of a mixin as it is written, before it is known whether it
/// stands in a definition or in a call.
#[derive(Debug, PartialEq, Eq)]
#[allow(inconsistent_fields)]
pub enum MixinArgument {
    /// A variable name (e.g. `@color`), with a value or default if it has
    /// one (e.g. `@color: blue`).
    Variable { name: String, value: Option<Expression> },
    /// A value (e.g. `blue`).
    Literal { value: Expression },
    /// The rest of the arguments: `...`, or with a name `@rest...`.
    Variadic { name: Option<String> },
}

impl View for MixinArgument {
    type V = ArgumentModel;

    open spec fn view(&self) -> ArgumentModel {
        match self {
            MixinArgument::Variable { name, value } => ArgumentModel::Variable {
                name: name@,
                value: optional_expression(*value),
            },
            MixinArgument::Literal { value } => ArgumentModel::Literal { value: value@ },
            MixinArgument::Variadic { name } => ArgumentModel::Variadic {
                name: optional_text(*name),
            },
        }
    }
}

impl Clone for MixinArgument {
    fn clone(&self) -> (r: Self)
        ensures
            r@ == self@,
    {
        match self {
            MixinArgument::Variable { name, value } => MixinArgument::Variable {
                name: name.clone(),
                value: clone_optional_expression(value),
            },
            MixinArgument::Literal { value } => MixinArgument::Literal { value: value.clone() },
            MixinArgument::Variadic { name } => MixinArgument::Variadic {
                name: match name {
                    Some(name) => Some(name.clone()),
                    None => None,
                },
            },
        }
    }
}

/// Why arguments separated by commas cannot become one argument.
#[derive(Clone, Copy, Debug, PartialEq, Eq, Structural)]
pub enum FoldError {
    /// A variadic argument stands where it is not the last.
    VariadicNotLast,
    /// An argument behind the first has a name: commas and semicolons are
    /// mixed.
    MixedSeparators,
    /// There is no argument.
    NoArguments,
}

impl FoldError {
    /// What the fault says, in words.
    pub open spec fn spec_description(self) -> &'static str {
        match self {
            FoldError::VariadicNotLast => "Variadic arguments must be the last argument",
            FoldError::MixedSeparators =>
                "Cannot mix comma-separated and semicolon-separated arguments",
            FoldError::NoArguments => "No arguments provided",
        }
    }

    /// What the fault says, in words.
    #[verifier::when_used_as_spec(spec_description)]
    pub fn description(self) -> (r: &'static str)
        ensures
            r == self.spec_description(),
    {
        match self {
            FoldError::VariadicNotLast => "Variadic arguments must be the last argument",
            FoldError::MixedSeparators =>
                "Cannot mix comma-separated and semicolon-separated arguments",
            FoldError::NoArguments => "No arguments provided",
        }
    }
}

/// Whether the value of the argument, if it has one, is well-formed.
pub open spec fn slot_well_formed(argument: ArgumentModel) -> bool {
    match argument {
        ArgumentModel::Variable { value, .. } => optional_well_formed(value),
        ArgumentModel::Literal { value } => well_formed(value),
        ArgumentModel::Variadic { .. } => true,
    }
}

/// Whether the values of all the arguments are well-formed.
pub open spec fn slots_well_formed(arguments: Seq<MixinArgument>) -> bool {
    forall|k: int| 0 <= k < arguments.len() ==> slot_well_formed((#[trigger] arguments[k])@)
}

/// What a sequence of arguments holds.
pub open spec fn slots_view(arguments: Seq<MixinArgument>) -> Seq<ArgumentModel> {
    Seq::new(arguments.len(), |i: int| arguments[i]@)
}

/// The segments of the selector of a mixin call from `start` on, and where
/// the selector ends.
pub fn mixin_selector(tts: &[Spanned<TokenTree>], start: usize) -> (r: (Vec<SimpleSelector>, usize))
    requires
        start <= tts.len(),
    ensures
        rules::mixin_selector(trees_view(tts@), start as int, Seq::empty()) == (
            simple_selectors_view(r.0@),
            r.1 as int,
        ),
        start <= r.1 <= tts.len(),
{
    let n = tts.len();
    let mut found: Vec<SimpleSelector> = Vec::new();
    let mut i = start;
    assert(simple_selectors_view(found@) =~= Seq::empty());
    loop
        invariant
            n == tts.len(),
            start <= i <= n,
            rules::mixin_selector(trees_view(tts@), start as int, Seq::empty())
                == rules::mixin_selector(trees_view(tts@), i as int, simple_selectors_view(found@)),
        decreases n - i,
    {
        match mixin_segment(tts, i) {
            None => {
                return (found, i);
            },
            Some((segment, end)) => {
                let mut next = junk(tts, end);
                if next < n && is_symbol(&tts[next].0, '>') {
                    next = junk(tts, next + 1);
                }
                assert(simple_selectors_view(found@.push(segment)) =~= simple_selectors_view(
                    found@,
                ).push(segment@));
                found.push(segment);
                if mixin_segment(tts, next).is_some() {
                    i = next;
                } else {
                    return (found, end);
                }
            },
        }
    }
}

/// The one argument that arguments separated by commas make once a `;`
/// follows them: their values become one list separated by commas. Only the
/// first may have a name, and none may be variadic; else the result is the
/// first fault met.
pub fn to_semicolon_separated(arguments: Vec<MixinArgument>) -> (r: Result<
    MixinArgument,
    FoldError,
>)
    requires
        slots_well_formed(arguments@),
    ensures
        r matches Ok(argument) ==> slot_well_formed(argument@),
        match r {
            Ok(argument) => rules::to_semicolon_separated(slots_view(arguments@)) == Ok::<
                ArgumentModel,
                FoldError,
            >(argument@),
            Err(fault) => rules::to_semicolon_separated(slots_view(arguments@)) == Err::<
                ArgumentModel,
                FoldError,
            >(fault),
        },
{
    let ghost all = slots_view(arguments@);
    let ghost given = arguments@;
    let mut rest = arguments;
    if rest.len() == 0 {
        return Err(FoldError::NoArguments);
    }
    let n = rest.len();
    let first = rest.remove(0);
    let mut values: Vec<Expression> = Vec::new();
    let mut name: Option<String> = None;
    assert(expressions_view(values@) =~= Seq::empty());
    assert(all[0] == first@);
    match first {
        MixinArgument::Variadic { .. } => {
            return Err(FoldError::VariadicNotLast);
        },
        MixinArgument::Literal { value } => {
            assert(expressions_view(values@.push(value)) =~= seq![value@]);
            values.push(value);
        },
        MixinArgument::Variable { name: variable, value } => {
            name = Some(variable);
            match value {
                Some(value) => {
                    assert(expressions_view(values@.push(value)) =~= seq![value@]);
                    values.push(value);
                },
                None => {},
            }
        },
    }
    let ghost head = expressions_view(values@);
    assert(rest@ =~= given.subrange(1, n as int));
    assert(head + rules::literal_values(all, 1) =~= expressions_view(values@)
        + rules::literal_values(all, 1));
    for next in iter: rest
        invariant
            given == arguments@,
            slots_well_formed(given),
            forall|k: int| 0 <= k < values.len() ==> well_formed((#[trigger] values[k])@),
            1 <= n == given.len(),
            all == slots_view(given),
            iter.seq() == given.subrange(1, n as int),
            !(all[0] is Variadic),
            rules::first_fault(all, 1) == rules::first_fault(all, iter.index() + 1),
            head + rules::literal_values(all, 1) == expressions_view(values@)
                + rules::literal_values(all, iter.index() + 1),
    {
        let ghost done = iter.index() + 1;
        assert(next == given[done]);
        assert(all[done] == next@);
        match next {
            MixinArgument::Literal { value } => {
                assert(expressions_view(values@.push(value)) + rules::literal_values(
                    all,
                    done + 1,
                ) =~= expressions_view(values@) + (seq![value@] + rules::literal_values(
                    all,
                    done + 1,
                )));
                values.push(value);
            },
            MixinArgument::Variable { .. } => {
                assert(rules::first_fault(all, done) == Some(FoldError::MixedSeparators));
                return Err(FoldError::MixedSeparators);
            },
            MixinArgument::Variadic { .. } => {
                assert(rules::first_fault(all, done) == Some(FoldError::VariadicNotLast));
                return Err(FoldError::VariadicNotLast);
            },
        }
    }
    assert(rules::literal_values(all, n as int) =~= Seq::empty());
    assert(expressions_view(values@) + Seq::empty() =~= expressions_view(values@));
    assert(rules::first_fault(all, n as int) is None);
    match name {
        Some(name) => {
            let value = if values.len() == 0 {
                None
            } else {
                Some(list(ListKind::Comma, values))
            };
            Ok(MixinArgument::Variable { name, value })
        },
        None => Ok(MixinArgument::Literal { value: list(ListKind::Comma, values) }),
    }
}

/// The value of an argument of a mixin that starts at `i`, and where it
/// ends.
pub fn argument_value(tts: &[Spanned<TokenTree>], i: usize, semicolons: bool) -> (r: Result<
    (Expression, usize),
    ParseError,
>)
    requires
        i <= tts.len(),
    ensures
        parsed(r) == rules::argument_value(trees_view(tts@), i as int, semicolons),
        sound(r, i as int, tts.len() as int),
    decreases tts@, tts@.len() - i, 13int,
{
    if group(tts, i, Delim::Brace).is_some() {
        detached_ruleset(tts, i)
    } else if semicolons {
        comma_list(tts, i, false)
    } else {
        space_list(tts, i)
    }
}

/// Whether `...` stands at `i`.
fn variadic_at(tts: &[Spanned<TokenTree>], i: usize) -> (r: bool)
    ensures
        r == rules::variadic_at(trees_view(tts@), i as int),
        r ==> i + 3 <= tts.len(),
{
    let n = tts.len();
    i < n && n - i >= 3 && is_symbol(&tts[i].0, '.') && is_symbol(&tts[i + 1].0, '.') && is_symbol(
        &tts[i + 2].0,
        '.',
    )
}

/// Whether an argument can start at `i`.
fn starts_argument(tts: &[Spanned<TokenTree>], i: usize) -> (r: bool)
    ensures
        r == rules::starts_argument(trees_view(tts@), i as int),
{
    at_ident(tts, i).is_some() || variadic_at(tts, i) || starts_value(tts, i)
}

/// What the outcome of reading arguments holds.
pub open spec fn slots_result(r: Result<(Vec<MixinArgument>, usize), ParseError>) -> Result<
    (Seq<ArgumentModel>, int),
    ParseError,
> {
    match r {
        Ok((arguments, end)) => Ok((slots_view(arguments@), end as int)),
        Err(e) => Err(e),
    }
}

/// The arguments of a mixin from `start` on, and where they end: the
/// arguments as they are written, to be made the parameters of a definition
/// or the arguments of a call.
pub fn mixin_arguments(tts: &[Spanned<TokenTree>], start: usize) -> (r: Result<
    (Vec<MixinArgument>, usize),
    ParseError,
>)
    requires
        start <= tts.len(),
    ensures
        slots_result(r) == rules::mixin_arguments(
            trees_view(tts@),
            start as int,
            false,
            Seq::empty(),
        ),
        r matches Ok((arguments, end)) ==> start <= end <= tts.len() && slots_well_formed(
            arguments@,
        ),
    decreases tts@, tts@.len() - start, 14int,
{
    let n = tts.len();
    let mut found: Vec<MixinArgument> = Vec::new();
    let mut semicolons = false;
    let mut i = start;
    assert(slots_view(found@) =~= Seq::empty());
    loop
        invariant
            n == tts.len(),
            start <= i <= n,
            slots_well_formed(found@),
            rules::mixin_arguments(trees_view(tts@), start as int, false, Seq::empty())
                == rules::mixin_arguments(
                trees_view(tts@),
                i as int,
                semicolons,
                slots_view(found@),
            ),
        decreases n - i,
    {
        let name = at_ident(tts, i);
        let p = if name.is_some() {
            junk(tts, i + 2)
        } else {
            i
        };
        if variadic_at(tts, p) {
            let argument = MixinArgument::Variadic {
                name: match name {
                    Some(name) => Some(name.clone()),
                    None => None,
                },
            };
            assert(slots_view(found@.push(argument)) =~= slots_view(found@).push(argument@));
            found.push(argument);
            return Ok((found, junk(tts, p + 3)));
        }
        let colon = name.is_some() && symbol(tts, p, ':');
        let v = if colon {
            junk(tts, p + 1)
        } else {
            p
        };
        let end: usize;
        let argument: MixinArgument;
        match name {
            Some(name) => {
                if colon {
                    if !starts_value(tts, v) {
                        return Err(error(ErrorKind::EmptyArgument, span_at(tts, v)));
                    }
                    match argument_value(tts, v, semicolons) {
                        Err(e) => {
                            return Err(e);
                        },
                        Ok((value, value_end)) => {
                            argument = MixinArgument::Variable {
                                name: name.clone(),
                                value: Some(value),
                            };
                            end = value_end;
                        },
                    }
                } else {
                    argument = MixinArgument::Variable { name: name.clone(), value: None };
                    end = p;
                }
            },
            None => {
                if !starts_value(tts, v) {
                    return Ok((found, i));
                }
                match argument_value(tts, v, semicolons) {
                    Err(e) => {
                        return Err(e);
                    },
                    Ok((value, value_end)) => {
                        argument = MixinArgument::Literal { value };
                        end = value_end;
                    },
                }
            },
        }
        assert(slots_view(found@.push(argument)) =~= slots_view(found@).push(argument@));
        found.push(argument);
        // What follows the argument.
        if end >= n {
            return Ok((found, end));
        }
        let next = junk(tts, end + 1);
        if is_symbol(&tts[end].0, ',') && !semicolons {
            if !starts_argument(tts, next) {
                return Err(error(ErrorKind::EmptyArgument, span_at(tts, next)));
            }
            i = next;
        } else if is_symbol(&tts[end].0, ';') {
            if !semicolons {
                match to_semicolon_separated(found) {
                    Ok(argument) => {
                        found = Vec::new();
                        assert(slots_view(found@.push(argument)) =~= seq![argument@]);
                        found.push(argument);
                    },
                    Err(_) => {
                        return Err(error(ErrorKind::UnexpectedToken, span_at(tts, end)));
                    },
                }
                semicolons = true;
            }
            if next >= n {
                return Ok((found, next));
            }
            if !starts_argument(tts, next) {
                return Err(error(ErrorKind::EmptyArgument, span_at(tts, next)));
            }
            i = next;
        } else {
            return Ok((found, end));
        }
    }
}

/// Whether the value of the parameter, if it has one, is well-formed.
pub open spec fn parameter_well_formed(parameter: MixinDeclarationArgumentModel) -> bool {
    match parameter {
        MixinDeclarationArgumentModel::Variable { default, .. } => optional_well_formed(default),
        MixinDeclarationArgumentModel::Literal { value } => well_formed(value),
        MixinDeclarationArgumentModel::Variadic { .. } => true,
    }
}

/// Whether the values of all the parameters are well-formed.
pub open spec fn parameters_well_formed(parameters: Seq<MixinDeclarationArgument>) -> bool {
    forall|k: int| 0 <= k < parameters.len() ==> parameter_well_formed((#[trigger] parameters[k])@)
}

impl MixinDeclarationArgument {
    /// The argument as a parameter of the definition of a mixin.
    pub fn try_from(value: MixinArgument) -> (r: Result<MixinDeclarationArgument, ()>)
        ensures
            r matches Ok(parameter) && parameter@ == rules::as_parameter(value@),
            slot_well_formed(value@) ==> parameter_well_formed(r->Ok_0@),
    {
        match value {
            MixinArgument::Variable { name, value } => Ok(
                MixinDeclarationArgument::Variable { name, default: value },
            ),
            MixinArgument::Literal { value } => Ok(MixinDeclarationArgument::Literal { value }),
            MixinArgument::Variadic { name } => Ok(MixinDeclarationArgument::Variadic { name }),
        }
    }
}

impl MixinCallArgument {
    /// The argument as an argument of the call of a mixin. A name without a
    /// value is the variable of that name, as a value; `...` is refused.
    pub fn try_from(value: MixinArgument) -> (r: Result<MixinCallArgument, ()>)
        ensures
            slot_well_formed(value@) ==> (r matches Ok(argument) ==> well_formed(argument.value@)),
            match r {
                Ok(argument) => rules::as_call_argument(value@) == Some(argument@),
                Err(_) => rules::as_call_argument(value@) is None,
            },
    {
        match value {
            MixinArgument::Variable { name, value } => match value {
                Some(value) => Ok(MixinCallArgument { name: Some(name), value }),
                None => Ok(MixinCallArgument { name: None, value: Expression::Variable(name) }),
            },
            MixinArgument::Literal { value } => Ok(MixinCallArgument { name: None, value }),
            MixinArgument::Variadic { .. } => Err(()),
        }
    }
}

/// The span of a whole sequence of token trees.
fn whole_span(tts: &[Spanned<TokenTree>]) -> (span: Span)
    ensures
        span == super::rules::whole_span(trees_view(tts@)),
{
    let n = tts.len();
    if n == 0 {
        Span { start: 0, end: 0 }
    } else {
        Span { start: tts[0].1.start, end: tts[n - 1].1.end }
    }
}

/// The arguments from `i` on, the junk there skipped.
fn arguments_from(tts: &[Spanned<TokenTree>], i: usize) -> (r: Result<
    (Vec<MixinArgument>, usize),
    ParseError,
>)
    requires
        i <= tts.len(),
    ensures
        slots_result(r) == rules::arguments_from(trees_view(tts@), i as int),
        r matches Ok((arguments, end)) ==> i <= end <= tts.len() && slots_well_formed(arguments@),
    decreases tts@, tts@.len() + 1, 0int,
{
    mixin_arguments(tts, junk(tts, i))
}

/// The parameters of the definition of a mixin from `i` on, and where they
/// end.
pub fn mixin_declaration_arguments(tts: &[Spanned<TokenTree>], i: usize) -> (r: Result<
    (Vec<MixinDeclarationArgument>, usize),
    ParseError,
>)
    requires
        i <= tts.len(),
    ensures
        match r {
            Ok((arguments, end)) => rules::mixin_declaration_arguments(trees_view(tts@), i as int)
                == Ok::<(Seq<MixinDeclarationArgumentModel>, int), ParseError>(
                (parameters_view(arguments@), end as int),
            ) && i <= end <= tts.len() && parameters_well_formed(arguments@),
            Err(e) => rules::mixin_declaration_arguments(trees_view(tts@), i as int) == Err::<
                (Seq<MixinDeclarationArgumentModel>, int),
                ParseError,
            >(e),
        },
{
    match arguments_from(tts, i) {
        Err(e) => Err(e),
        Ok((arguments, end)) => {
            let ghost all = slots_view(arguments@);
            let ghost given = arguments@;
            let mut out: Vec<MixinDeclarationArgument> = Vec::new();
            for next in iter: arguments
                invariant
                    all == slots_view(given),
                    slots_well_formed(given),
                    parameters_well_formed(out@),
                    iter.seq() == given,
                    out.len() == iter.index(),
                    forall|k: int|
                        0 <= k < out.len() ==> (#[trigger] out[k])@ == rules::as_parameter(all[k]),
            {
                assert(next == given[out.len() as int]);
                match MixinDeclarationArgument::try_from(next) {
                    Ok(parameter) => {
                        out.push(parameter);
                    },
                    Err(_) => {},
                }
            }
            assert(parameters_view(out@) =~= Seq::new(
                all.len(),
                |k: int| rules::as_parameter(all[k]),
            ));
            Ok((out, end))
        },
    }
}

/// The arguments of the call of a mixin from `i` on, and where they end.
pub fn mixin_call_arguments(tts: &[Spanned<TokenTree>], i: usize) -> (r: Result<
    (Vec<MixinCallArgument>, usize),
    ParseError,
>)
    requires
        i <= tts.len(),
    ensures
        match r {
            Ok((arguments, end)) => rules::mixin_call_arguments(trees_view(tts@), i as int) == Ok::<
                (Seq<MixinCallArgumentModel>, int),
                ParseError,
            >((arguments_view(arguments@), end as int)) && i <= end <= tts.len() && forall|k: int|
                0 <= k < arguments.len() ==> well_formed((#[trigger] arguments[k]).value@),
            Err(e) => rules::mixin_call_arguments(trees_view(tts@), i as int) == Err::<
                (Seq<MixinCallArgumentModel>, int),
                ParseError,
            >(e),
        },
    decreases tts@, tts@.len() + 1, 1int,
{
    match arguments_from(tts, i) {
        Err(e) => Err(e),
        Ok((arguments, end)) => {
            let ghost all = slots_view(arguments@);
            let ghost given = arguments@;
            let mut out: Vec<MixinCallArgument> = Vec::new();
            for next in iter: arguments
                invariant
                    all == slots_view(given),
                    slots_well_formed(given),
                    forall|k: int| 0 <= k < out.len() ==> well_formed((#[trigger] out[k]).value@),
                    iter.seq() == given,
                    out.len() == iter.index(),
                    rules::arguments_from(trees_view(tts@), i as int) == Ok::<
                        (Seq<ArgumentModel>, int),
                        ParseError,
                    >((all, end as int)),
                    forall|k: int|
                        0 <= k < out.len() ==> rules::as_call_argument(#[trigger] all[k]) == Some(
                            out[k]@,
                        ),
            {
                assert(next == given[out.len() as int]);
                assert(all[out.len() as int] == next@);
                match MixinCallArgument::try_from(next) {
                    Ok(argument) => {
                        out.push(argument);
                    },
                    Err(_) => {
                        assert(rules::as_call_argument(all[out.len() as int]) is None);
                        assert(!rules::all_callable(all));
                        return Err(error(ErrorKind::UnexpectedToken, whole_span(tts)));
                    },
                }
            }
            assert(rules::all_callable(all));
            assert(arguments_view(out@) =~= Seq::new(
                all.len(),
                |k: int| rules::as_call_argument(all[k])->0,
            ));
            Ok((out, end))
        },
    }
}

/// The kind of the error for what is left at `i` behind a list of
/// arguments.
fn left_over(tts: &[Spanned<TokenTree>], i: usize) -> (kind: ErrorKind)
    ensures
        kind == rules::left_over(trees_view(tts@), i as int),
{
    if symbol(tts, i, ',') || symbol(tts, i, ';') {
        ErrorKind::EmptyArgument
    } else {
        ErrorKind::UnexpectedToken
    }
}

/// What the outcome of reading the call of a mixin holds.
pub open spec fn call_result(r: Result<(MixinCallExpression, usize), ParseError>) -> Result<
    ((Seq<SimpleSelectorModel>, Seq<MixinCallArgumentModel>), int),
    ParseError,
> {
    match r {
        Ok((call, end)) => Ok((call@, end as int)),
        Err(e) => Err(e),
    }
}

/// The call of a mixin that starts at `i`, and where it ends: the segments
/// of its selector, and parentheses with its arguments.
pub fn mixin_call(tts: &[Spanned<TokenTree>], i: usize) -> (r: Result<
    (MixinCallExpression, usize),
    ParseError,
>)
    requires
        i <= tts.len(),
    ensures
        call_result(r) == rules::mixin_call(trees_view(tts@), i as int),
        rules::mixin_call_expression(trees_view(tts@), i as int) == call_value(call_result(r)),
        r matches Ok((call, end)) ==> i < end <= tts.len() && forall|k: int|
            0 <= k < call.arguments.len() ==> well_formed((#[trigger] call.arguments[k]).value@),
    decreases tts@, tts@.len() - i, 0int,
{
    let n = tts.len();
    let (selector, end) = mixin_selector(tts, i);
    let paren = junk(tts, end);
    if paren >= n || selector.len() == 0 {
        return Err(error(ErrorKind::UnexpectedToken, span_at(tts, i)));
    }
    match group(tts, paren, Delim::Paren) {
        None => Err(error(ErrorKind::UnexpectedToken, span_at(tts, i))),
        Some(content) => match mixin_call_arguments(content.as_slice(), 0) {
            Err(e) => Err(e),
            Ok((arguments, stop)) => if stop < content.len() {
                Err(error(left_over(content.as_slice(), stop), span_at(content.as_slice(), stop)))
            } else {
                Ok((MixinCallExpression { selector, arguments }, junk(tts, paren + 1)))
            },
        },
    }
}

/// The call of a mixin as a value.
pub open spec fn call_value(
    r: Result<((Seq<SimpleSelectorModel>, Seq<MixinCallArgumentModel>), int), ParseError>,
) -> rules::Parsed {
    match r {
        Ok(((selector, arguments), end)) => Ok(
            (ExpressionModel::MixinCall(selector, arguments, Seq::empty()), end),
        ),
        Err(e) => Err(e),
    }
}

/// The call of a mixin as a value that starts at `i`, and where it ends.
pub fn mixin_call_expression(tts: &[Spanned<TokenTree>], i: usize) -> (r: Result<
    (Expression, usize),
    ParseError,
>)
    requires
        i <= tts.len(),
    ensures
        parsed(r) == rules::mixin_call_expression(trees_view(tts@), i as int),
        sound(r, i as int, tts.len() as int),
{
    as_value(mixin_call(tts, i))
}

/// The call of a mixin as a value.
pub fn as_value(r: Result<(MixinCallExpression, usize), ParseError>) -> (v: Result<
    (Expression, usize),
    ParseError,
>)
    requires
        r matches Ok((call, _)) ==> forall|k: int|
            0 <= k < call.arguments.len() ==> well_formed((#[trigger] call.arguments[k]).value@),
    ensures
        parsed(v) == call_value(call_result(r)),
        v matches Ok((value, end)) ==> well_formed(value@) && call_result(r) is Ok && call_result(
            r,
        )->Ok_0.1 == end,
{
    match r {
        Err(e) => Err(e),
        Ok((call, end)) => Ok((mixin_call_value(call.selector, call.arguments), end)),
    }
}

/// The call of a mixin as an item that starts at `i`: the call and `;`.
pub fn mixin_call_item(tts: &[Spanned<TokenTree>], i: usize) -> (r: Result<
    (MixinCallExpression, usize),
    ParseError,
>)
    requires
        i <= tts.len(),
    ensures
        call_result(r) == rules::mixin_call_item(trees_view(tts@), i as int),
        r matches Ok((call, end)) ==> i < end <= tts.len() && forall|k: int|
            0 <= k < call.arguments.len() ==> well_formed((#[trigger] call.arguments[k]).value@),
{
    match mixin_call(tts, i) {
        Err(e) => Err(e),
        Ok((call, end)) => if symbol(tts, end, ';') {
            Ok((call, junk(tts, end + 1)))
        } else {
            Err(error(ErrorKind::ExpectedSemicolon, span_at(tts, end)))
        },
    }
}

/// The parameters that the content of the parentheses of a definition
/// holds.
pub fn parameters(content: &ListOfComponentValues) -> (r: Result<
    Vec<MixinDeclarationArgument>,
    ParseError,
>)
    ensures
        r matches Ok(arguments) ==> parameters_well_formed(arguments@),
        match r {
            Ok(arguments) => rules::parameters(content@) == Ok::<
                Seq<MixinDeclarationArgumentModel>,
                ParseError,
            >(parameters_view(arguments@)),
            Err(e) => rules::parameters(content@) == Err::<
                Seq<MixinDeclarationArgumentModel>,
                ParseError,
            >(e),
        },
{
    let tts = content.0.as_slice();
    match mixin_declaration_arguments(tts, 0) {
        Err(e) => Err(e),
        Ok((arguments, end)) => if end < tts.len() {
            Err(error(left_over(tts, end), span_at(tts, end)))
        } else {
            Ok(arguments)
        },
    }
}

/// The expression that a guard holds.
pub fn guard_expression(guard: &ListOfComponentValues) -> (r: Result<Expression, ParseError>)
    ensures
        r matches Ok(value) ==> well_formed(value@),
        match r {
            Ok(value) => rules::guard_expression(guard@) == Ok::<ExpressionModel, ParseError>(
                value@,
            ),
            Err(e) => rules::guard_expression(guard@) == Err::<ExpressionModel, ParseError>(e),
        },
{
    let tts = guard.0.as_slice();
    match binary(tts, junk(tts, 0), 3) {
        Err(e) => Err(e),
        Ok((value, end)) => if end < tts.len() {
            Err(error(ErrorKind::UnexpectedToken, span_at(tts, end)))
        } else {
            Ok(value)
        },
    }
}

/// The definition of a mixin that starts at `i`, its parameters and its
/// guard read, and where it ends.
pub fn mixin_declaration(tts: &[Spanned<TokenTree>], i: usize) -> (r: Result<
    (MixinDeclaration, usize),
    ParseError,
>)
    requires
        i < tts.len(),
    ensures
        match r {
            Ok((declaration, end)) => rules::mixin_declaration(trees_view(tts@), i as int) == Ok::<
                (MixinDeclarationModel, int),
                ParseError,
            >((declaration@, end as int)) && i < end <= tts.len() && parameters_well_formed(
                declaration.arguments@,
            ) && optional_well_formed(declaration@.block.guard),
            Err(e) => rules::mixin_declaration(trees_view(tts@), i as int) == Err::<
                (MixinDeclarationModel, int),
                ParseError,
            >(e),
        },
{
    match mixin_rule(tts, i) {
        Err(e) => Err(e),
        Ok((item, end)) => match item {
            Item::QualifiedRule(QualifiedRule::Mixin(rule)) => {
                proof {
                    crate::ast::lemma_block_model(rule.block);
                }
                let arguments = match parameters(&rule.arguments) {
                    Err(e) => {
                        return Err(e);
                    },
                    Ok(arguments) => arguments,
                };
                let guard = match &rule.guard {
                    None => None,
                    Some(guard) => match guard_expression(guard) {
                        Err(e) => {
                            return Err(e);
                        },
                        Ok(value) => Some(value),
                    },
                };
                Ok(
                    (
                        MixinDeclaration {
                            selector: rule.name,
                            arguments,
                            block: GuardedBlock { guard, items: rule.block },
                        },
                        end,
                    ),
                )
            },
            _ => Err(error(ErrorKind::UnknownItemShape, span_at(tts, i))),
        },
    }
}

} // verus!
