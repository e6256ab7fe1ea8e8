//! Selectors.

use vstd::prelude::*;

verus! {

/// A simple selector.
#[derive(Debug, PartialEq, Eq)]
pub enum SimpleSelector {
    /// `*`
    Universal,
    /// An element name (e.g. `body`).
    Type(String),
    /// `#name`
    Id(String),
    /// `.name`
    Class(String),
    /// `[name]`
    Attribute(String),
    /// `:name`
    PseudoClass(String),
    /// `::name`
    PseudoElement(String),
    /// `:not(..)`
    Negation(Box<SimpleSelector>),
}

/// What a [`SimpleSelector`] holds.
pub enum SimpleSelectorModel {
    Universal,
    Type(Seq<char>),
    Id(Seq<char>),
    Class(Seq<char>),
    Attribute(Seq<char>),
    PseudoClass(Seq<char>),
    PseudoElement(Seq<char>),
    Negation(Box<SimpleSelectorModel>),
}

/// What a simple selector holds.
pub open spec fn simple_selector_model(selector: SimpleSelector) -> SimpleSelectorModel
    decreases selector,
{
    match selector {
        SimpleSelector::Universal => SimpleSelectorModel::Universal,
        SimpleSelector::Type(name) => SimpleSelectorModel::Type(name@),
        SimpleSelector::Id(name) => SimpleSelectorModel::Id(name@),
        SimpleSelector::Class(name) => SimpleSelectorModel::Class(name@),
        SimpleSelector::Attribute(name) => SimpleSelectorModel::Attribute(name@),
        SimpleSelector::PseudoClass(name) => SimpleSelectorModel::PseudoClass(name@),
        SimpleSelector::PseudoElement(name) => SimpleSelectorModel::PseudoElement(name@),
        SimpleSelector::Negation(inner) => SimpleSelectorModel::Negation(
            Box::new(simple_selector_model(*inner)),
        ),
    }
}

impl View for SimpleSelector {
    type V = SimpleSelectorModel;

    open spec fn view(&self) -> SimpleSelectorModel {
        simple_selector_model(*self)
    }
}

/// How two sequences of simple selectors are joined.
#[derive(Clone, Copy, Debug, PartialEq, Eq, Structural)]
pub enum Combinator {
    /// Whitespace.
    Descendant,
    /// `>`
    Child,
    /// `+`
    NextSibling,
    /// `~`
    SubsequentSibling,
}

/// Simple selectors that stand side by side (e.g. `a.external:hover`).
#[derive(Debug, PartialEq, Eq)]
pub struct SimpleSelectorSequence(pub Vec<SimpleSelector>);

/// Sequences of simple selectors, and the combinators between them.
#[derive(Debug, PartialEq, Eq)]
pub struct Selector(pub Vec<SimpleSelectorSequence>, pub Vec<Combinator>);

/// Selectors separated by commas.
#[derive(Debug, PartialEq, Eq)]
pub struct SelectorGroup(pub Vec<Selector>);

/// What a sequence of simple selectors holds.
pub open spec fn simple_selectors_view(selectors: Seq<SimpleSelector>) -> Seq<SimpleSelectorModel> {
    Seq::new(selectors.len(), |i: int| selectors[i]@)
}

impl View for SimpleSelectorSequence {
    type V = Seq<SimpleSelectorModel>;

    open spec fn view(&self) -> Seq<SimpleSelectorModel> {
        simple_selectors_view(self.0@)
    }
}

/// What a [`Selector`] holds.
pub struct SelectorModel {
    pub sequences: Seq<Seq<SimpleSelectorModel>>,
    pub combinators: Seq<Combinator>,
}

impl View for Selector {
    type V = SelectorModel;

    open spec fn view(&self) -> SelectorModel {
        SelectorModel {
            sequences: Seq::new(self.0@.len(), |i: int| self.0@[i]@),
            combinators: self.1@,
        }
    }
}

impl View for SelectorGroup {
    type V = Seq<SelectorModel>;

    open spec fn view(&self) -> Seq<SelectorModel> {
        Seq::new(self.0@.len(), |i: int| self.0@[i]@)
    }
}

impl Clone for SimpleSelector {
    fn clone(&self) -> (r: Self)
        ensures
            r@ == self@,
        decreases self,
    {
        match self {
            SimpleSelector::Universal => SimpleSelector::Universal,
            SimpleSelector::Type(name) => SimpleSelector::Type(name.clone()),
            SimpleSelector::Id(name) => SimpleSelector::Id(name.clone()),
            SimpleSelector::Class(name) => SimpleSelector::Class(name.clone()),
            SimpleSelector::Attribute(name) => SimpleSelector::Attribute(name.clone()),
            SimpleSelector::PseudoClass(name) => SimpleSelector::PseudoClass(name.clone()),
            SimpleSelector::PseudoElement(name) => SimpleSelector::PseudoElement(name.clone()),
            SimpleSelector::Negation(inner) => {
                let copy = (**inner).clone();
                SimpleSelector::Negation(Box::new(copy))
            },
        }
    }
}

/// A copy of a sequence of simple selectors.
pub fn clone_simple_selectors(selectors: &Vec<SimpleSelector>) -> (r: Vec<SimpleSelector>)
    ensures
        simple_selectors_view(r@) == simple_selectors_view(selectors@),
{
    let mut out: Vec<SimpleSelector> = Vec::new();
    let mut i: usize = 0;
    while i < selectors.len()
        invariant
            i <= selectors.len(),
            out.len() == i,
            forall|k: int| 0 <= k < i ==> (#[trigger] out[k])@ == selectors[k]@,
        decreases selectors.len() - i,
    {
        out.push(selectors[i].clone());
        i += 1;
    }
    assert(simple_selectors_view(out@) =~= simple_selectors_view(selectors@));
    out
}

impl Clone for SimpleSelectorSequence {
    fn clone(&self) -> (r: Self)
        ensures
            r@ == self@,
    {
        SimpleSelectorSequence(clone_simple_selectors(&self.0))
    }
}

impl Clone for Selector {
    fn clone(&self) -> (r: Self)
        ensures
            r@ == self@,
            r.1.len() == self.1.len(),
            r.0.len() == self.0.len(),
    {
        let mut sequences: Vec<SimpleSelectorSequence> = Vec::new();
        let mut i: usize = 0;
        while i < self.0.len()
            invariant
                i <= self.0.len(),
                sequences.len() == i,
                forall|k: int| 0 <= k < i ==> (#[trigger] sequences[k])@ == self.0[k]@,
            decreases self.0.len() - i,
        {
            sequences.push(self.0[i].clone());
            i += 1;
        }
        let mut combinators: Vec<Combinator> = Vec::new();
        let mut j: usize = 0;
        while j < self.1.len()
            invariant
                j <= self.1.len(),
                combinators.len() == j,
                forall|k: int| 0 <= k < j ==> combinators[k] == self.1[k],
            decreases self.1.len() - j,
        {
            combinators.push(self.1[j]);
            j += 1;
        }
        let r = Selector(sequences, combinators);
        assert(r@.sequences =~= self@.sequences);
        assert(r@.combinators =~= self@.combinators);
        r
    }
}

impl Clone for SelectorGroup {
    fn clone(&self) -> (r: Self)
        ensures
            r@ == self@,
    {
        let mut selectors: Vec<Selector> = Vec::new();
        let mut i: usize = 0;
        while i < self.0.len()
            invariant
                i <= self.0.len(),
                selectors.len() == i,
                forall|k: int| 0 <= k < i ==> (#[trigger] selectors[k])@ == self.0[k]@,
            decreases self.0.len() - i,
        {
            selectors.push(self.0[i].clone());
            i += 1;
        }
        let r = SelectorGroup(selectors);
        assert(r@ =~= self@);
        r
    }
}

} // verus!
