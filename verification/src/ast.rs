//! The syntax tree of a style sheet.
//!
//! Items keep what they were read from as raw token trees: a prelude, a
//! value, the arguments of a call. The functions of the expression parser
//! read such a slice on demand and give it the shape of an
//! [`Expression`](expression::Expression).

use crate::lexer::{clone_trees, trees_view, Span, Spanned, TokenTree, TreeModel};
use vstd::prelude::*;

pub mod expression;
pub mod selector;

use selector::{simple_selector_model, SimpleSelector, SimpleSelectorModel};

verus! {

/// What a sequence of spanned token trees holds.
pub type Trees = Seq<(TreeModel, Span)>;

/// A style sheet: a list of items.
#[derive(Debug, PartialEq, Eq)]
pub struct Stylesheet {
    pub items: ListOfItems,
}

/// A list of spanned items.
#[derive(Debug, PartialEq, Eq)]
pub struct ListOfItems(pub Vec<Spanned<Item>>);

/// A raw run of sibling token trees.
#[derive(Debug, PartialEq, Eq)]
pub struct ListOfComponentValues(pub Vec<Spanned<TokenTree>>);

/// An item of a style sheet or of a block.
///
///  - [`AtRule`] (e.g. `@media screen { color: blue; }`)
///  - [`QualifiedRule`]
///      - [`GenericRule`] (e.g. `.main > a { color: blue; }`)
///      - [`StyleRule`] (e.g. `.box when (@mode = dark) { color: blue; }`)
///      - [`MixinRule`] (e.g. `.mixin(@color) { color: @color; }`)
///  - [`Declaration`]
///      - [`DeclarationName::Ident`] (e.g. `color: blue;`)
///      - [`DeclarationName::Variable`] (e.g. `@color: blue;`)
///  - [`Call`]
///      - [`MixinCall`] (e.g. `.mixin(blue);`)
///      - [`VariableCall`] (e.g. `@detached-ruleset();`)
///      - [`FunctionCall`] (e.g. `each(red blue green, {});`)
#[derive(Debug, PartialEq, Eq)]
pub enum Item {
    AtRule(AtRule),
    QualifiedRule(QualifiedRule),
    Declaration(Declaration),
    Call(Call),
}

#[derive(Debug, PartialEq, Eq)]
pub enum AtRule {
    Generic(GenericAtRule),
}

/// `@name`, a prelude, and a block if the rule ends with one.
#[derive(Debug, PartialEq, Eq)]
pub struct GenericAtRule {
    pub name: String,
    pub prelude: ListOfComponentValues,
    pub block: Option<ListOfItems>,
}

#[derive(Debug, PartialEq, Eq)]
pub enum QualifiedRule {
    Generic(GenericRule),
    Style(StyleRule),
    Mixin(MixinRule),
}

/// A prelude and a block.
#[derive(Debug, PartialEq, Eq)]
pub struct GenericRule {
    pub prelude: ListOfComponentValues,
    pub block: ListOfItems,
}

/// A rule whose prelude ends in a guard: the selectors before `when`, the
/// guard after it, and the block.
#[derive(Debug, PartialEq, Eq)]
pub struct StyleRule {
    pub selectors: ListOfComponentValues,
    pub guard: Option<ListOfComponentValues>,
    pub block: ListOfItems,
}

/// The definition of a mixin: its class or id, the content of its
/// parentheses, the guard after `when` if there is one, and the block.
#[derive(Debug, PartialEq, Eq)]
pub struct MixinRule {
    pub name: SimpleSelector,
    pub arguments: ListOfComponentValues,
    pub guard: Option<ListOfComponentValues>,
    pub block: ListOfItems,
}

/// `name: value`, with the flag `!important` taken off the value.
#[derive(Debug, PartialEq, Eq)]
pub struct Declaration {
    pub name: DeclarationName,
    pub value: ListOfComponentValues,
    pub important: bool,
}

#[derive(Debug, PartialEq, Eq)]
pub enum DeclarationName {
    /// A property (e.g. `color`).
    Ident(String),
    /// A name with interpolated parts (e.g. `border-@{side}-color`). The
    /// parser does not read such names yet.
    InterpolatedIdent(ListOfComponentValues),
    /// A variable (e.g. `@color`): its name without the `@`.
    Variable(String),
}

#[derive(Debug, PartialEq, Eq)]
pub enum Call {
    Mixin(MixinCall),
    Variable(VariableCall),
    Function(FunctionCall),
}

/// The call of a mixin: the selector, and the content of the parentheses.
#[derive(Debug, PartialEq, Eq)]
pub struct MixinCall {
    pub selector: ListOfComponentValues,
    pub arguments: ListOfComponentValues,
}

/// The call of a detached ruleset held by a variable.
#[derive(Debug, PartialEq, Eq)]
pub struct VariableCall {
    pub name: String,
    /// The lookups after the call. The parser reads none yet.
    pub lookups: Option<ListOfComponentValues>,
}

/// The call of a function: its name, and the content of the parentheses.
#[derive(Debug, PartialEq, Eq)]
pub struct FunctionCall {
    pub name: String,
    pub arguments: ListOfComponentValues,
}

/// What a [`DeclarationName`] holds.
pub enum DeclarationNameModel {
    Ident(Seq<char>),
    InterpolatedIdent(Trees),
    Variable(Seq<char>),
}

/// What an [`Item`] holds.
#[allow(inconsistent_fields)]
pub enum ItemModel {
    AtRule { name: Seq<char>, prelude: Trees, block: Option<Seq<(ItemModel, Span)>> },
    GenericRule { prelude: Trees, block: Seq<(ItemModel, Span)> },
    StyleRule { selectors: Trees, guard: Option<Trees>, block: Seq<(ItemModel, Span)> },
    MixinRule {
        name: SimpleSelectorModel,
        arguments: Trees,
        guard: Option<Trees>,
        block: Seq<(ItemModel, Span)>,
    },
    Declaration { name: DeclarationNameModel, value: Trees, important: bool },
    MixinCall { selector: Trees, arguments: Trees },
    VariableCall { name: Seq<char>, lookups: Option<Trees> },
    FunctionCall { name: Seq<char>, arguments: Trees },
}

impl View for ListOfComponentValues {
    type V = Trees;

    open spec fn view(&self) -> Trees {
        trees_view(self.0@)
    }
}

/// What an optional raw run holds.
pub open spec fn optional_trees(values: Option<ListOfComponentValues>) -> Option<Trees> {
    match values {
        Some(values) => Some(values@),
        None => None,
    }
}

impl View for DeclarationName {
    type V = DeclarationNameModel;

    open spec fn view(&self) -> DeclarationNameModel {
        match self {
            DeclarationName::Ident(name) => DeclarationNameModel::Ident(name@),
            DeclarationName::InterpolatedIdent(parts) => DeclarationNameModel::InterpolatedIdent(
                parts@,
            ),
            DeclarationName::Variable(name) => DeclarationNameModel::Variable(name@),
        }
    }
}

/// What an item holds.
pub open spec fn item_model(item: Item) -> ItemModel
    decreases item,
{
    match item {
        Item::AtRule(AtRule::Generic(rule)) => ItemModel::AtRule {
            name: rule.name@,
            prelude: rule.prelude@,
            block: match rule.block {
                Some(block) => Some(items_model(block.0@, block.0@.len())),
                None => None,
            },
        },
        Item::QualifiedRule(QualifiedRule::Generic(rule)) => ItemModel::GenericRule {
            prelude: rule.prelude@,
            block: items_model(rule.block.0@, rule.block.0@.len()),
        },
        Item::QualifiedRule(QualifiedRule::Style(rule)) => ItemModel::StyleRule {
            selectors: rule.selectors@,
            guard: optional_trees(rule.guard),
            block: items_model(rule.block.0@, rule.block.0@.len()),
        },
        Item::QualifiedRule(QualifiedRule::Mixin(rule)) => ItemModel::MixinRule {
            name: simple_selector_model(rule.name),
            arguments: rule.arguments@,
            guard: optional_trees(rule.guard),
            block: items_model(rule.block.0@, rule.block.0@.len()),
        },
        Item::Declaration(declaration) => ItemModel::Declaration {
            name: declaration.name@,
            value: declaration.value@,
            important: declaration.important,
        },
        Item::Call(Call::Mixin(call)) => ItemModel::MixinCall {
            selector: call.selector@,
            arguments: call.arguments@,
        },
        Item::Call(Call::Variable(call)) => ItemModel::VariableCall {
            name: call.name@,
            lookups: optional_trees(call.lookups),
        },
        Item::Call(Call::Function(call)) => ItemModel::FunctionCall {
            name: call.name@,
            arguments: call.arguments@,
        },
    }
}

/// What the first `n` of a sequence of spanned items hold.
pub open spec fn items_model(items: Seq<Spanned<Item>>, n: nat) -> Seq<(ItemModel, Span)>
    decreases items, n,
{
    if n == 0 || n > items.len() {
        Seq::empty()
    } else {
        items_model(items, (n - 1) as nat).push((item_model(items[n - 1].0), items[n - 1].1))
    }
}

impl View for Item {
    type V = ItemModel;

    open spec fn view(&self) -> ItemModel {
        item_model(*self)
    }
}

/// What a sequence of spanned items holds.
pub open spec fn items_view(items: Seq<Spanned<Item>>) -> Seq<(ItemModel, Span)> {
    Seq::new(items.len(), |i: int| (items[i].0@, items[i].1))
}

/// `items_model` goes through the sequence item by item.
pub proof fn lemma_items_model(items: Seq<Spanned<Item>>, n: nat)
    requires
        n <= items.len(),
    ensures
        items_model(items, n) == items_view(items.subrange(0, n as int)),
    decreases n,
{
    if n > 0 {
        lemma_items_model(items, (n - 1) as nat);
        assert(items_view(items.subrange(0, n - 1)).push((items[n - 1].0@, items[n - 1].1))
            =~= items_view(items.subrange(0, n as int)));
    } else {
        assert(items_model(items, n) =~= items_view(items.subrange(0, n as int)));
    }
}

impl View for ListOfItems {
    type V = Seq<(ItemModel, Span)>;

    open spec fn view(&self) -> Seq<(ItemModel, Span)> {
        items_view(self.0@)
    }
}

/// The block of an item holds what the list holds.
pub proof fn lemma_block_model(block: ListOfItems)
    ensures
        items_model(block.0@, block.0@.len()) == block@,
{
    lemma_items_model(block.0@, block.0@.len());
    assert(block.0@.subrange(0, block.0@.len() as int) =~= block.0@);
}

impl View for Stylesheet {
    type V = Seq<(ItemModel, Span)>;

    open spec fn view(&self) -> Seq<(ItemModel, Span)> {
        self.items@
    }
}

impl Clone for ListOfComponentValues {
    fn clone(&self) -> (r: Self)
        ensures
            r@ == self@,
    {
        ListOfComponentValues(clone_trees(self.0.as_slice()))
    }
}

/// A copy of an optional raw run.
fn clone_optional(values: &Option<ListOfComponentValues>) -> (r: Option<ListOfComponentValues>)
    ensures
        optional_trees(r) == optional_trees(*values),
{
    match values {
        Some(values) => Some(values.clone()),
        None => None,
    }
}

impl Clone for DeclarationName {
    fn clone(&self) -> (r: Self)
        ensures
            r@ == self@,
    {
        match self {
            DeclarationName::Ident(name) => DeclarationName::Ident(name.clone()),
            DeclarationName::InterpolatedIdent(parts) => DeclarationName::InterpolatedIdent(
                parts.clone(),
            ),
            DeclarationName::Variable(name) => DeclarationName::Variable(name.clone()),
        }
    }
}

/// A copy of a list of items.
pub fn clone_items(items: &ListOfItems) -> (r: ListOfItems)
    ensures
        r@ == items@,
    decreases items,
{
    let mut out: Vec<Spanned<Item>> = Vec::new();
    let mut i: usize = 0;
    while i < items.0.len()
        invariant
            i <= items.0.len(),
            out.len() == i,
            forall|k: int| 0 <= k < i ==> out[k].0@ == items.0[k].0@ && out[k].1 == items.0[k].1,
        decreases items.0.len() - i,
    {
        proof {
            assert(decreases_to!(*items => items.0));
            assert(decreases_to!(items.0 => items.0[i as int]));
            assert(decreases_to!(items.0[i as int] => items.0[i as int].0));
        }
        let item = items.0[i].0.clone();
        out.push((item, items.0[i].1));
        i += 1;
    }
    assert(items_view(out@) =~= items_view(items.0@));
    ListOfItems(out)
}

impl Clone for Item {
    fn clone(&self) -> (r: Self)
        ensures
            r@ == self@,
        decreases self,
    {
        match self {
            Item::AtRule(AtRule::Generic(rule)) => {
                let block = match &rule.block {
                    Some(block) => {
                        let copy = clone_items(block);
                        proof {
                            lemma_block_model(copy);
                            lemma_block_model(*block);
                        }
                        Some(copy)
                    },
                    None => None,
                };
                Item::AtRule(
                    AtRule::Generic(
                        GenericAtRule {
                            name: rule.name.clone(),
                            prelude: rule.prelude.clone(),
                            block,
                        },
                    ),
                )
            },
            Item::QualifiedRule(QualifiedRule::Generic(rule)) => {
                let block = clone_items(&rule.block);
                proof {
                    lemma_block_model(block);
                    lemma_block_model(rule.block);
                }
                Item::QualifiedRule(
                    QualifiedRule::Generic(GenericRule { prelude: rule.prelude.clone(), block }),
                )
            },
            Item::QualifiedRule(QualifiedRule::Style(rule)) => {
                let block = clone_items(&rule.block);
                proof {
                    lemma_block_model(block);
                    lemma_block_model(rule.block);
                }
                Item::QualifiedRule(
                    QualifiedRule::Style(
                        StyleRule {
                            selectors: rule.selectors.clone(),
                            guard: clone_optional(&rule.guard),
                            block,
                        },
                    ),
                )
            },
            Item::QualifiedRule(QualifiedRule::Mixin(rule)) => {
                let block = clone_items(&rule.block);
                proof {
                    lemma_block_model(block);
                    lemma_block_model(rule.block);
                }
                Item::QualifiedRule(
                    QualifiedRule::Mixin(
                        MixinRule {
                            name: rule.name.clone(),
                            arguments: rule.arguments.clone(),
                            guard: clone_optional(&rule.guard),
                            block,
                        },
                    ),
                )
            },
            Item::Declaration(declaration) => Item::Declaration(
                Declaration {
                    name: declaration.name.clone(),
                    value: declaration.value.clone(),
                    important: declaration.important,
                },
            ),
            Item::Call(Call::Mixin(call)) => Item::Call(
                Call::Mixin(
                    MixinCall { selector: call.selector.clone(), arguments: call.arguments.clone() },
                ),
            ),
            Item::Call(Call::Variable(call)) => Item::Call(
                Call::Variable(
                    VariableCall { name: call.name.clone(), lookups: clone_optional(&call.lookups) },
                ),
            ),
            Item::Call(Call::Function(call)) => Item::Call(
                Call::Function(
                    FunctionCall { name: call.name.clone(), arguments: call.arguments.clone() },
                ),
            ),
        }
    }
}

impl Clone for ListOfItems {
    fn clone(&self) -> (r: Self)
        ensures
            r@ == self@,
    {
        clone_items(self)
    }
}

impl Clone for Stylesheet {
    fn clone(&self) -> (r: Self)
        ensures
            r@ == self@,
    {
        Stylesheet { items: clone_items(&self.items) }
    }
}

} // verus!
