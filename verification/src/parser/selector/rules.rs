//! What the selector parser produces, stated on token trees alone.

use crate::ast::selector::{Combinator, SelectorModel, SimpleSelectorModel};
use crate::ast::Trees;
use crate::lexer::Delim;
use crate::parser::rules::{group_at, hash_at, ident_at, skip_junk, span_at, symbol_at};
use crate::parser::{ErrorKind, ParseError};
use vstd::prelude::*;

verus! {

/// Whether `text` is `not`, in any case.
pub open spec fn is_not(text: Seq<char>) -> bool {
    &&& text.len() == 3
    &&& (text[0] == 'n' || text[0] == 'N')
    &&& (text[1] == 'o' || text[1] == 'O')
    &&& (text[2] == 't' || text[2] == 'T')
}

/// The selector of a type, `name`, at `i`.
pub open spec fn type_selector_at(ts: Trees, i: int) -> Option<(SimpleSelectorModel, int)> {
    match ident_at(ts, i) {
        Some(name) => Some((SimpleSelectorModel::Type(name), i + 1)),
        None => None,
    }
}

/// The universal selector, `*`, at `i`.
pub open spec fn universal_selector_at(ts: Trees, i: int) -> Option<(SimpleSelectorModel, int)> {
    if symbol_at(ts, i, '*') {
        Some((SimpleSelectorModel::Universal, i + 1))
    } else {
        None
    }
}

/// The selector of an id, `#name`, at `i`.
pub open spec fn id_selector_at(ts: Trees, i: int) -> Option<(SimpleSelectorModel, int)> {
    match hash_at(ts, i) {
        Some(name) => Some((SimpleSelectorModel::Id(name), i + 1)),
        None => None,
    }
}

/// The selector of a class, `.name`, at `i`.
pub open spec fn class_selector_at(ts: Trees, i: int) -> Option<(SimpleSelectorModel, int)> {
    if symbol_at(ts, i, '.') && ident_at(ts, i + 1) is Some {
        Some((SimpleSelectorModel::Class(ident_at(ts, i + 1)->0), i + 2))
    } else {
        None
    }
}

/// The selector of a pseudo-element, `::name`, at `i`.
pub open spec fn pseudo_element_selector_at(ts: Trees, i: int) -> Option<
    (SimpleSelectorModel, int),
> {
    if symbol_at(ts, i, ':') && symbol_at(ts, i + 1, ':') && ident_at(ts, i + 2) is Some {
        Some((SimpleSelectorModel::PseudoElement(ident_at(ts, i + 2)->0), i + 3))
    } else {
        None
    }
}

/// The selector of a pseudo-class, `:name`, at `i`.
pub open spec fn pseudo_class_selector_at(ts: Trees, i: int) -> Option<(SimpleSelectorModel, int)> {
    if symbol_at(ts, i, ':') && ident_at(ts, i + 1) is Some {
        Some((SimpleSelectorModel::PseudoClass(ident_at(ts, i + 1)->0), i + 2))
    } else {
        None
    }
}

/// The selector of an attribute, `[name]`, at `i`.
pub open spec fn attribute_selector_at(ts: Trees, i: int) -> Option<(SimpleSelectorModel, int)> {
    match group_at(ts, i, Delim::Bracket) {
        Some(content) => {
            let k = skip_junk(content, 0);
            if ident_at(content, k) is Some && skip_junk(content, k + 1) >= content.len() {
                Some((SimpleSelectorModel::Attribute(ident_at(content, k)->0), i + 1))
            } else {
                None
            }
        },
        None => None,
    }
}

/// The simple selector at `i` that is no negation: the selector of an id, a
/// class, an attribute, a pseudo-element or a pseudo-class; where `first`
/// holds, also that of a type and the universal selector.
pub open spec fn plain_selector_at(ts: Trees, i: int, first: bool) -> Option<
    (SimpleSelectorModel, int),
> {
    if first && type_selector_at(ts, i) is Some {
        type_selector_at(ts, i)
    } else if first && universal_selector_at(ts, i) is Some {
        universal_selector_at(ts, i)
    } else if id_selector_at(ts, i) is Some {
        id_selector_at(ts, i)
    } else if class_selector_at(ts, i) is Some {
        class_selector_at(ts, i)
    } else if attribute_selector_at(ts, i) is Some {
        attribute_selector_at(ts, i)
    } else if pseudo_element_selector_at(ts, i) is Some {
        pseudo_element_selector_at(ts, i)
    } else {
        pseudo_class_selector_at(ts, i)
    }
}

/// Whether a negation starts at `i`: `:not(`.
pub open spec fn negation_at(ts: Trees, i: int) -> bool {
    symbol_at(ts, i, ':') && ident_at(ts, i + 1) is Some && is_not(ident_at(ts, i + 1)->0)
        && group_at(ts, i + 2, Delim::Paren) is Some
}

/// What the parentheses of a negation hold: one simple selector that is no
/// negation and no attribute. Anything else is an error.
pub open spec fn negated(content: Trees) -> Result<SimpleSelectorModel, ParseError> {
    let k = skip_junk(content, 0);
    if attribute_selector_at(content, k) is Some {
        Err(error_at(content, k))
    } else {
        match plain_selector_at(content, k, true) {
            None => Err(error_at(content, k)),
            Some((inner, end)) => if skip_junk(content, end) < content.len() {
                Err(error_at(content, skip_junk(content, end)))
            } else {
                Ok(SimpleSelectorModel::Negation(Box::new(inner)))
            },
        }
    }
}

/// The error for what stands at `i` and cannot.
pub open spec fn error_at(ts: Trees, i: int) -> ParseError {
    crate::parser::rules::error(ErrorKind::UnexpectedToken, span_at(ts, i))
}

/// The simple selector at `i`, and where it ends; `None` where none stands.
pub open spec fn simple_selector_at(ts: Trees, i: int, first: bool) -> Result<
    Option<(SimpleSelectorModel, int)>,
    ParseError,
> {
    if negation_at(ts, i) {
        match negated(group_at(ts, i + 2, Delim::Paren)->0) {
            Err(e) => Err(e),
            Ok(selector) => Ok(Some((selector, i + 3))),
        }
    } else {
        Ok(plain_selector_at(ts, i, first))
    }
}

/// The simple selectors that stand side by side from `i` on, behind those in
/// `found`, and where they end.
pub open spec fn sequence_tail(ts: Trees, i: int, found: Seq<SimpleSelectorModel>) -> Result<
    (Seq<SimpleSelectorModel>, int),
    ParseError,
>
    decreases ts.len() - i,
{
    match simple_selector_at(ts, i, false) {
        Err(e) => Err(e),
        Ok(None) => Ok((found, i)),
        Ok(Some((selector, end))) => if i < end <= ts.len() {
            sequence_tail(ts, end, found.push(selector))
        } else {
            Ok((found, i))
        },
    }
}

/// The sequence of simple selectors that starts at `i`, and where it ends;
/// `None` where none starts. Only the first may be the selector of a type or
/// the universal selector.
pub open spec fn sequence_at(ts: Trees, i: int) -> Result<
    Option<(Seq<SimpleSelectorModel>, int)>,
    ParseError,
> {
    match simple_selector_at(ts, i, true) {
        Err(e) => Err(e),
        Ok(None) => Ok(None),
        Ok(Some((first, end))) => match sequence_tail(ts, end, seq![first]) {
            Err(e) => Err(e),
            Ok(r) => Ok(Some(r)),
        },
    }
}

/// The sequence of simple selectors that starts at `i`. Where none starts,
/// that is an error.
pub open spec fn simple_selector_sequence(ts: Trees, i: int) -> Result<
    (Seq<SimpleSelectorModel>, int),
    ParseError,
> {
    match sequence_at(ts, i) {
        Err(e) => Err(e),
        Ok(None) => Err(error_at(ts, i)),
        Ok(Some(r)) => Ok(r),
    }
}

/// The combinator at `i`, and where it ends: `>`, `+` or `~` with junk
/// around it or without, or else junk alone.
pub open spec fn combinator_at(ts: Trees, i: int) -> Option<(Combinator, int)> {
    let k = skip_junk(ts, i);
    if symbol_at(ts, k, '>') {
        Some((Combinator::Child, skip_junk(ts, k + 1)))
    } else if symbol_at(ts, k, '+') {
        Some((Combinator::NextSibling, skip_junk(ts, k + 1)))
    } else if symbol_at(ts, k, '~') {
        Some((Combinator::SubsequentSibling, skip_junk(ts, k + 1)))
    } else if k > i {
        Some((Combinator::Descendant, k))
    } else {
        None
    }
}

/// The selector that goes on at `i` behind `found`, and where it ends. A
/// combinator behind which no sequence starts does not belong to it; the
/// junk behind the selector does.
pub open spec fn selector_tail(ts: Trees, i: int, found: SelectorModel) -> Result<
    (SelectorModel, int),
    ParseError,
>
    decreases ts.len() - i,
{
    match combinator_at(ts, i) {
        None => Ok((found, i)),
        Some((combinator, next)) => match sequence_at(ts, next) {
            Err(e) => Err(e),
            Ok(None) => Ok((found, skip_junk(ts, i))),
            Ok(Some((sequence, end))) => if i < end <= ts.len() {
                selector_tail(
                    ts,
                    end,
                    SelectorModel {
                        sequences: found.sequences.push(sequence),
                        combinators: found.combinators.push(combinator),
                    },
                )
            } else {
                Ok((found, skip_junk(ts, i)))
            },
        },
    }
}

/// The selector that starts at `i`, and where it ends: sequences of simple
/// selectors with a combinator between each two; `None` where none starts.
pub open spec fn selector_at(ts: Trees, i: int) -> Result<Option<(SelectorModel, int)>, ParseError> {
    match sequence_at(ts, i) {
        Err(e) => Err(e),
        Ok(None) => Ok(None),
        Ok(Some((first, end))) => match selector_tail(
            ts,
            end,
            SelectorModel { sequences: seq![first], combinators: Seq::empty() },
        ) {
            Err(e) => Err(e),
            Ok(r) => Ok(Some(r)),
        },
    }
}

/// The selector that starts at `i`. Where none starts, that is an error.
pub open spec fn selector(ts: Trees, i: int) -> Result<(SelectorModel, int), ParseError> {
    match selector_at(ts, i) {
        Err(e) => Err(e),
        Ok(None) => Err(error_at(ts, i)),
        Ok(Some(r)) => Ok(r),
    }
}

/// The group of selectors that goes on at `i` behind `found`. A comma
/// behind which no selector starts does not belong to it.
pub open spec fn group_tail(ts: Trees, i: int, found: Seq<SelectorModel>) -> Result<
    (Seq<SelectorModel>, int),
    ParseError,
>
    decreases ts.len() - i,
{
    if symbol_at(ts, i, ',') {
        match selector_at(ts, skip_junk(ts, i + 1)) {
            Err(e) => Err(e),
            Ok(None) => Ok((found, i)),
            Ok(Some((next, end))) => if i < end <= ts.len() {
                group_tail(ts, end, found.push(next))
            } else {
                Ok((found, i))
            },
        }
    } else {
        Ok((found, i))
    }
}

/// The group of selectors that starts at `i`, and where it ends: selectors
/// separated by commas, one at least.
pub open spec fn selector_group(ts: Trees, i: int) -> Result<(Seq<SelectorModel>, int), ParseError> {
    match selector(ts, i) {
        Err(e) => Err(e),
        Ok((first, end)) => group_tail(ts, end, seq![first]),
    }
}

/// A selector has one combinator less than it has sequences.
pub proof fn lemma_selector_tail_arity(ts: Trees, i: int, found: SelectorModel)
    requires
        found.combinators.len() + 1 == found.sequences.len(),
    ensures
        selector_tail(ts, i, found) matches Ok((selector, _)) ==> selector.combinators.len() + 1
            == selector.sequences.len(),
    decreases ts.len() - i,
{
    match combinator_at(ts, i) {
        None => {},
        Some((combinator, next)) => match sequence_at(ts, next) {
            Ok(Some((sequence, end))) => {
                if i < end <= ts.len() {
                    lemma_selector_tail_arity(
                        ts,
                        end,
                        SelectorModel {
                            sequences: found.sequences.push(sequence),
                            combinators: found.combinators.push(combinator),
                        },
                    );
                }
            },
            _ => {},
        },
    }
}

/// Each selector that [`selector`] gives has one combinator less than it
/// has sequences of simple selectors.
pub proof fn lemma_selector_arity(ts: Trees, i: int)
    ensures
        selector(ts, i) matches Ok((selector, _)) ==> selector.combinators.len() + 1
            == selector.sequences.len(),
{
    match sequence_at(ts, i) {
        Ok(Some((first, end))) => {
            lemma_selector_tail_arity(
                ts,
                end,
                SelectorModel { sequences: seq![first], combinators: Seq::empty() },
            );
        },
        _ => {},
    }
}

} // verus!
