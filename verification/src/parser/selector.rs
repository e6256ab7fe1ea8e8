//! Selectors.

use super::{error, group, hash, ident, junk, span_at as span_of, symbol, ErrorKind, ParseError};
use crate::ast::selector::{
    simple_selectors_view, Combinator, Selector, SelectorGroup, SelectorModel, SimpleSelector,
    SimpleSelectorModel, SimpleSelectorSequence,
};
use crate::lexer::{trees_view, Delim, Spanned, TokenTree};
use vstd::prelude::*;

pub mod rules;

verus! {

/// What an optional simple selector and its end hold.
pub open spec fn found(r: Option<(SimpleSelector, usize)>) -> Option<(SimpleSelectorModel, int)> {
    match r {
        Some((selector, end)) => Some((selector@, end as int)),
        None => None,
    }
}

/// Whether a simple selector that was read from `from` on ends behind
/// `from` and within `len`.
pub open spec fn ends_behind(r: Option<(SimpleSelector, usize)>, from: int, len: int) -> bool {
    r matches Some((_, end)) ==> from < end <= len
}

/// Whether `text` is `not`, in any case.
fn text_is_not(text: &String) -> (r: bool)
    ensures
        r == rules::is_not(text@),
{
    let mut chars = text.as_str().chars();
    let c1 = chars.next();
    let c2 = chars.next();
    let c3 = chars.next();
    let c4 = chars.next();
    match (c1, c2, c3, c4) {
        (Some(a), Some(b), Some(c), None) => (a == 'n' || a == 'N') && (b == 'o' || b == 'O') && (c
            == 't' || c == 'T'),
        _ => false,
    }
}

/// The selector of a type at `i`.
fn type_selector(tts: &[Spanned<TokenTree>], i: usize) -> (r: Option<(SimpleSelector, usize)>)
    ensures
        found(r) == rules::type_selector_at(trees_view(tts@), i as int),
        ends_behind(r, i as int, tts.len() as int),
{
    match ident(tts, i) {
        Some(name) => Some((SimpleSelector::Type(name.clone()), i + 1)),
        None => None,
    }
}

/// The universal selector at `i`.
fn universal_selector(tts: &[Spanned<TokenTree>], i: usize) -> (r: Option<(SimpleSelector, usize)>)
    ensures
        found(r) == rules::universal_selector_at(trees_view(tts@), i as int),
        ends_behind(r, i as int, tts.len() as int),
{
    if symbol(tts, i, '*') {
        Some((SimpleSelector::Universal, i + 1))
    } else {
        None
    }
}

/// The selector of an id, `#name`, at `i`, and where it ends.
pub fn id_selector(tts: &[Spanned<TokenTree>], i: usize) -> (r: Option<(SimpleSelector, usize)>)
    ensures
        found(r) == rules::id_selector_at(trees_view(tts@), i as int),
        ends_behind(r, i as int, tts.len() as int),
{
    match hash(tts, i) {
        Some(name) => Some((SimpleSelector::Id(name.clone()), i + 1)),
        None => None,
    }
}

/// The selector of a class, `.name`, at `i`, and where it ends.
pub fn class_selector(tts: &[Spanned<TokenTree>], i: usize) -> (r: Option<(SimpleSelector, usize)>)
    ensures
        found(r) == rules::class_selector_at(trees_view(tts@), i as int),
        ends_behind(r, i as int, tts.len() as int),
{
    if symbol(tts, i, '.') {
        match ident(tts, i + 1) {
            Some(name) => Some((SimpleSelector::Class(name.clone()), i + 2)),
            None => None,
        }
    } else {
        None
    }
}

/// The selector of a pseudo-class at `i`.
fn pseudo_class_selector(tts: &[Spanned<TokenTree>], i: usize) -> (r: Option<
    (SimpleSelector, usize),
>)
    ensures
        found(r) == rules::pseudo_class_selector_at(trees_view(tts@), i as int),
        ends_behind(r, i as int, tts.len() as int),
{
    if symbol(tts, i, ':') {
        match ident(tts, i + 1) {
            Some(name) => Some((SimpleSelector::PseudoClass(name.clone()), i + 2)),
            None => None,
        }
    } else {
        None
    }
}

/// The selector of a pseudo-element at `i`.
fn pseudo_element_selector(tts: &[Spanned<TokenTree>], i: usize) -> (r: Option<
    (SimpleSelector, usize),
>)
    ensures
        found(r) == rules::pseudo_element_selector_at(trees_view(tts@), i as int),
        ends_behind(r, i as int, tts.len() as int),
{
    if symbol(tts, i, ':') && symbol(tts, i + 1, ':') {
        match ident(tts, i + 2) {
            Some(name) => Some((SimpleSelector::PseudoElement(name.clone()), i + 3)),
            None => None,
        }
    } else {
        None
    }
}

/// The selector of an attribute at `i`.
fn attribute_selector(tts: &[Spanned<TokenTree>], i: usize) -> (r: Option<(SimpleSelector, usize)>)
    ensures
        found(r) == rules::attribute_selector_at(trees_view(tts@), i as int),
        ends_behind(r, i as int, tts.len() as int),
{
    match group(tts, i, Delim::Bracket) {
        Some(content) => {
            let content = content.as_slice();
            let k = junk(content, 0);
            match ident(content, k) {
                Some(name) => if junk(content, k + 1) >= content.len() {
                    Some((SimpleSelector::Attribute(name.clone()), i + 1))
                } else {
                    None
                },
                None => None,
            }
        },
        None => None,
    }
}

/// The simple selector at `i` that is no negation.
fn plain_selector(tts: &[Spanned<TokenTree>], i: usize, first: bool) -> (r: Option<
    (SimpleSelector, usize),
>)
    ensures
        found(r) == rules::plain_selector_at(trees_view(tts@), i as int, first),
        ends_behind(r, i as int, tts.len() as int),
{
    if first {
        match type_selector(tts, i) {
            Some(r) => {
                return Some(r);
            },
            None => {},
        }
        match universal_selector(tts, i) {
            Some(r) => {
                return Some(r);
            },
            None => {},
        }
    }
    match id_selector(tts, i) {
        Some(r) => {
            return Some(r);
        },
        None => {},
    }
    match class_selector(tts, i) {
        Some(r) => {
            return Some(r);
        },
        None => {},
    }
    match attribute_selector(tts, i) {
        Some(r) => {
            return Some(r);
        },
        None => {},
    }
    match pseudo_element_selector(tts, i) {
        Some(r) => {
            return Some(r);
        },
        None => {},
    }
    pseudo_class_selector(tts, i)
}

/// What the parentheses of a negation hold.
fn negation_selector(content: &[Spanned<TokenTree>]) -> (r: Result<SimpleSelector, ParseError>)
    ensures
        match r {
            Ok(selector) => rules::negated(trees_view(content@)) == Ok::<SimpleSelectorModel, ParseError>(
                selector@,
            ),
            Err(e) => rules::negated(trees_view(content@)) == Err::<SimpleSelectorModel, ParseError>(e),
        },
{
    let k = junk(content, 0);
    if attribute_selector(content, k).is_some() {
        return Err(error(ErrorKind::UnexpectedToken, span_of(content, k)));
    }
    match plain_selector(content, k, true) {
        None => Err(error(ErrorKind::UnexpectedToken, span_of(content, k))),
        Some((inner, end)) => {
            let rest = junk(content, end);
            if rest < content.len() {
                Err(error(ErrorKind::UnexpectedToken, span_of(content, rest)))
            } else {
                Ok(SimpleSelector::Negation(Box::new(inner)))
            }
        },
    }
}

/// What the outcome of looking for a simple selector holds.
pub open spec fn looked(r: Result<Option<(SimpleSelector, usize)>, ParseError>) -> Result<
    Option<(SimpleSelectorModel, int)>,
    ParseError,
> {
    match r {
        Ok(r) => Ok(found(r)),
        Err(e) => Err(e),
    }
}

/// The simple selector at `i`, and where it ends; `None` where none stands.
pub fn simple_selector(tts: &[Spanned<TokenTree>], i: usize, first: bool) -> (r: Result<
    Option<(SimpleSelector, usize)>,
    ParseError,
>)
    ensures
        looked(r) == rules::simple_selector_at(trees_view(tts@), i as int, first),
        r matches Ok(Some((_, end))) ==> i < end <= tts.len(),
{
    if symbol(tts, i, ':') {
        match ident(tts, i + 1) {
            Some(name) => if text_is_not(name) {
                match group(tts, i + 2, Delim::Paren) {
                    Some(content) => {
                        return match negation_selector(content.as_slice()) {
                            Err(e) => Err(e),
                            Ok(selector) => Ok(Some((selector, i + 3))),
                        };
                    },
                    None => {},
                }
            },
            None => {},
        }
    }
    Ok(plain_selector(tts, i, first))
}

/// What the outcome of looking for a sequence holds.
pub open spec fn sequence_looked(
    r: Result<Option<(SimpleSelectorSequence, usize)>, ParseError>,
) -> Result<Option<(Seq<SimpleSelectorModel>, int)>, ParseError> {
    match r {
        Ok(Some((sequence, end))) => Ok(Some((sequence@, end as int))),
        Ok(None) => Ok(None),
        Err(e) => Err(e),
    }
}

/// The sequence of simple selectors that starts at `i`, and where it ends;
/// `None` where none starts.
pub fn sequence_at_position(tts: &[Spanned<TokenTree>], i: usize) -> (r: Result<
    Option<(SimpleSelectorSequence, usize)>,
    ParseError,
>)
    ensures
        sequence_looked(r) == rules::sequence_at(trees_view(tts@), i as int),
        r matches Ok(Some((_, end))) ==> i < end <= tts.len(),
{
    let (first, end) = match simple_selector(tts, i, true) {
        Err(e) => {
            return Err(e);
        },
        Ok(None) => {
            return Ok(None);
        },
        Ok(Some(r)) => r,
    };
    let mut selectors: Vec<SimpleSelector> = Vec::new();
    assert(simple_selectors_view(selectors@.push(first)) =~= seq![first@]);
    selectors.push(first);
    let mut pos = end;
    loop
        invariant
            i < pos <= tts.len(),
            rules::sequence_at(trees_view(tts@), i as int) matches Ok(Some(_)) ==> rules::sequence_tail(
                trees_view(tts@),
                pos as int,
                simple_selectors_view(selectors@),
            ) is Ok,
            rules::sequence_at(trees_view(tts@), i as int) == (match rules::sequence_tail(
                trees_view(tts@),
                pos as int,
                simple_selectors_view(selectors@),
            ) {
                Err(e) => Err(e),
                Ok(r) => Ok(Some(r)),
            }),
        decreases tts.len() - pos,
    {
        match simple_selector(tts, pos, false) {
            Err(e) => {
                return Err(e);
            },
            Ok(None) => {
                return Ok(Some((SimpleSelectorSequence(selectors), pos)));
            },
            Ok(Some((next, end))) => {
                assert(simple_selectors_view(selectors@.push(next)) =~= simple_selectors_view(
                    selectors@,
                ).push(next@));
                selectors.push(next);
                pos = end;
            },
        }
    }
}

/// The sequence of simple selectors that starts at `i`, and where it ends.
pub fn simple_selector_sequence(tts: &[Spanned<TokenTree>], i: usize) -> (r: Result<
    (SimpleSelectorSequence, usize),
    ParseError,
>)
    ensures
        match r {
            Ok((sequence, end)) => rules::simple_selector_sequence(trees_view(tts@), i as int) == Ok::<
                (Seq<SimpleSelectorModel>, int),
                ParseError,
            >((sequence@, end as int)) && i < end <= tts.len(),
            Err(e) => rules::simple_selector_sequence(trees_view(tts@), i as int) == Err::<
                (Seq<SimpleSelectorModel>, int),
                ParseError,
            >(e),
        },
{
    match sequence_at_position(tts, i) {
        Err(e) => Err(e),
        Ok(None) => Err(error(ErrorKind::UnexpectedToken, span_of(tts, i))),
        Ok(Some(r)) => Ok(r),
    }
}

/// The combinator at `i`, and where it ends.
pub fn combinator(tts: &[Spanned<TokenTree>], i: usize) -> (r: Option<(Combinator, usize)>)
    requires
        i <= tts.len(),
    ensures
        match r {
            Some((c, end)) => rules::combinator_at(trees_view(tts@), i as int) == Some((c, end as int))
                && i < end <= tts.len(),
            None => rules::combinator_at(trees_view(tts@), i as int) is None,
        },
{
    let k = junk(tts, i);
    if symbol(tts, k, '>') {
        Some((Combinator::Child, junk(tts, k + 1)))
    } else if symbol(tts, k, '+') {
        Some((Combinator::NextSibling, junk(tts, k + 1)))
    } else if symbol(tts, k, '~') {
        Some((Combinator::SubsequentSibling, junk(tts, k + 1)))
    } else if k > i {
        Some((Combinator::Descendant, k))
    } else {
        None
    }
}

/// What the sequences of a selector hold.
pub open spec fn sequences_view(sequences: Seq<SimpleSelectorSequence>) -> Seq<
    Seq<SimpleSelectorModel>,
> {
    Seq::new(sequences.len(), |i: int| sequences[i]@)
}

/// What the outcome of looking for a selector holds.
pub open spec fn selector_looked(r: Result<Option<(Selector, usize)>, ParseError>) -> Result<
    Option<(SelectorModel, int)>,
    ParseError,
> {
    match r {
        Ok(Some((selector, end))) => Ok(Some((selector@, end as int))),
        Ok(None) => Ok(None),
        Err(e) => Err(e),
    }
}

/// The selector that starts at `i`, and where it ends; `None` where none
/// starts.
pub fn selector_at_position(tts: &[Spanned<TokenTree>], i: usize) -> (r: Result<
    Option<(Selector, usize)>,
    ParseError,
>)
    ensures
        selector_looked(r) == rules::selector_at(trees_view(tts@), i as int),
        r matches Ok(Some((selector, end))) ==> i < end <= tts.len() && selector.1.len() + 1
            == selector.0.len(),
{
    let (first, end) = match sequence_at_position(tts, i) {
        Err(e) => {
            return Err(e);
        },
        Ok(None) => {
            return Ok(None);
        },
        Ok(Some(r)) => r,
    };
    let mut sequences: Vec<SimpleSelectorSequence> = Vec::new();
    let mut combinators: Vec<Combinator> = Vec::new();
    assert(sequences_view(sequences@.push(first)) =~= seq![first@]);
    sequences.push(first);
    let mut pos = end;
    loop
        invariant
            i < pos <= tts.len(),
            combinators.len() + 1 == sequences.len(),
            rules::selector_at(trees_view(tts@), i as int) == (match rules::selector_tail(
                trees_view(tts@),
                pos as int,
                SelectorModel {
                    sequences: sequences_view(sequences@),
                    combinators: combinators@,
                },
            ) {
                Err(e) => Err(e),
                Ok(r) => Ok(Some(r)),
            }),
        decreases tts.len() - pos,
    {
        match combinator(tts, pos) {
            None => {
                assert(Selector(sequences, combinators)@.sequences =~= sequences_view(sequences@));
                return Ok(Some((Selector(sequences, combinators), pos)));
            },
            Some((c, next)) => match sequence_at_position(tts, next) {
                Err(e) => {
                    return Err(e);
                },
                Ok(None) => {
                    assert(Selector(sequences, combinators)@.sequences =~= sequences_view(
                        sequences@,
                    ));
                    return Ok(Some((Selector(sequences, combinators), junk(tts, pos))));
                },
                Ok(Some((sequence, end))) => {
                    assert(sequences_view(sequences@.push(sequence)) =~= sequences_view(
                        sequences@,
                    ).push(sequence@));
                    sequences.push(sequence);
                    combinators.push(c);
                    pos = end;
                },
            },
        }
    }
}

/// The selector that starts at `i`, and where it ends. It has one
/// combinator less than it has sequences of simple selectors.
pub fn selector(tts: &[Spanned<TokenTree>], i: usize) -> (r: Result<(Selector, usize), ParseError>)
    ensures
        match r {
            Ok((s, end)) => rules::selector(trees_view(tts@), i as int) == Ok::<
                (SelectorModel, int),
                ParseError,
            >((s@, end as int)) && i < end <= tts.len() && s.1.len() + 1 == s.0.len(),
            Err(e) => rules::selector(trees_view(tts@), i as int) == Err::<
                (SelectorModel, int),
                ParseError,
            >(e),
        },
{
    match selector_at_position(tts, i) {
        Err(e) => Err(e),
        Ok(None) => Err(error(ErrorKind::UnexpectedToken, span_of(tts, i))),
        Ok(Some(r)) => Ok(r),
    }
}

/// What a sequence of selectors holds.
pub open spec fn selectors_view(selectors: Seq<Selector>) -> Seq<SelectorModel> {
    Seq::new(selectors.len(), |i: int| selectors[i]@)
}

/// The group of selectors that starts at `i`, and where it ends: selectors
/// separated by commas, one at least. Each has one combinator less than it
/// has sequences.
pub fn selector_group(tts: &[Spanned<TokenTree>], i: usize) -> (r: Result<
    (SelectorGroup, usize),
    ParseError,
>)
    ensures
        match r {
            Ok((group, end)) => rules::selector_group(trees_view(tts@), i as int) == Ok::<
                (Seq<SelectorModel>, int),
                ParseError,
            >((group@, end as int)) && i < end <= tts.len() && group.0.len() >= 1
                && forall|k: int|
                0 <= k < group.0.len() ==> (#[trigger] group.0[k]).1.len() + 1
                    == group.0[k].0.len(),
            Err(e) => rules::selector_group(trees_view(tts@), i as int) == Err::<
                (Seq<SelectorModel>, int),
                ParseError,
            >(e),
        },
{
    let (first, end) = match selector(tts, i) {
        Err(e) => {
            return Err(e);
        },
        Ok(r) => r,
    };
    let mut selectors: Vec<Selector> = Vec::new();
    assert(selectors_view(selectors@.push(first)) =~= seq![first@]);
    selectors.push(first);
    let mut pos = end;
    loop
        invariant
            i < pos <= tts.len(),
            selectors.len() >= 1,
            forall|k: int|
                0 <= k < selectors.len() ==> (#[trigger] selectors[k]).1.len() + 1
                    == selectors[k].0.len(),
            rules::selector_group(trees_view(tts@), i as int) == rules::group_tail(
                trees_view(tts@),
                pos as int,
                selectors_view(selectors@),
            ),
        decreases tts.len() - pos,
    {
        if !symbol(tts, pos, ',') {
            assert(SelectorGroup(selectors)@ =~= selectors_view(selectors@));
            return Ok((SelectorGroup(selectors), pos));
        }
        match selector_at_position(tts, junk(tts, pos + 1)) {
            Err(e) => {
                return Err(e);
            },
            Ok(None) => {
                assert(SelectorGroup(selectors)@ =~= selectors_view(selectors@));
                return Ok((SelectorGroup(selectors), pos));
            },
            Ok(Some((next, end))) => {
                assert(selectors_view(selectors@.push(next)) =~= selectors_view(selectors@).push(
                    next@,
                ));
                selectors.push(next);
                pos = end;
            },
        }
    }
}

} // verus!
