//! Values.

use super::selector::{
    clone_simple_selectors, simple_selectors_view, SimpleSelector, SimpleSelectorModel,
};
use super::{clone_items, ItemModel, ListOfItems};
use crate::lexer::{Number, NumberModel, Span};
use vstd::prelude::*;

verus! {

/// The operators of binary and unary operations.
#[derive(Clone, Copy, Debug, PartialEq, Eq, Structural)]
pub enum BinaryOperator {
    Add,
    Subtract,
    Multiply,
    Divide,
    Equality,
    LessThan,
    LessThanOrEqualTo,
    GreaterThan,
    GreaterThanOrEqualTo,
    And,
    Or,
}

/// A lookup in the value of a variable or of a mixin call, written in
/// square brackets.
#[derive(Debug, PartialEq, Eq)]
pub enum Lookup {
    /// `[]`
    Last,
    /// `[name]`
    Ident(String),
    /// `[@name]`
    Variable(String),
    /// `[$name]`
    Property(String),
    /// `[@@name]`
    VariableVariable(String),
    /// `[$@name]`
    VariableProperty(String),
}

/// What a [`Lookup`] holds.
pub enum LookupModel {
    Last,
    Ident(Seq<char>),
    Variable(Seq<char>),
    Property(Seq<char>),
    VariableVariable(Seq<char>),
    VariableProperty(Seq<char>),
}

impl View for Lookup {
    type V = LookupModel;

    open spec fn view(&self) -> LookupModel {
        match self {
            Lookup::Last => LookupModel::Last,
            Lookup::Ident(name) => LookupModel::Ident(name@),
            Lookup::Variable(name) => LookupModel::Variable(name@),
            Lookup::Property(name) => LookupModel::Property(name@),
            Lookup::VariableVariable(name) => LookupModel::VariableVariable(name@),
            Lookup::VariableProperty(name) => LookupModel::VariableProperty(name@),
        }
    }
}

/// What a sequence of lookups holds.
pub open spec fn lookups_view(lookups: Seq<Lookup>) -> Seq<LookupModel> {
    Seq::new(lookups.len(), |i: int| lookups[i]@)
}

/// What stands in a string as `@{name}` or `${name}`.
#[derive(Debug, PartialEq, Eq)]
pub enum InterpolatedValue {
    /// `@{name}`
    Variable(String),
    /// `${name}`
    Property(String),
}

/// What an [`InterpolatedValue`] holds.
pub enum InterpolatedValueModel {
    Variable(Seq<char>),
    Property(Seq<char>),
}

impl View for InterpolatedValue {
    type V = InterpolatedValueModel;

    open spec fn view(&self) -> InterpolatedValueModel {
        match self {
            InterpolatedValue::Variable(name) => InterpolatedValueModel::Variable(name@),
            InterpolatedValue::Property(name) => InterpolatedValueModel::Property(name@),
        }
    }
}

/// What a sequence of interpolated values holds.
pub open spec fn interpolations_view(values: Seq<InterpolatedValue>) -> Seq<
    InterpolatedValueModel,
> {
    Seq::new(values.len(), |i: int| values[i]@)
}

/// What a sequence of strings holds.
pub open spec fn strings_view(strings: Seq<String>) -> Seq<Seq<char>> {
    Seq::new(strings.len(), |i: int| strings[i]@)
}

/// What an optional string holds.
pub open spec fn optional_text(text: Option<String>) -> Option<Seq<char>> {
    match text {
        Some(text) => Some(text@),
        None => None,
    }
}

/// A value.
#[derive(Debug, PartialEq, Eq)]
pub enum Expression {
    /// Values separated by `;`. Never empty.
    SemicolonList(Vec<Expression>),
    /// Values separated by `,`. Never empty.
    CommaList(Vec<Expression>),
    /// Values that stand side by side. Never empty.
    SpaceList(Vec<Expression>),
    /// A keyword (e.g. `inherit`).
    Ident(String),
    /// A number, with its unit if it has one (e.g. `10px`, `50%`).
    Numeric(Number, Option<String>),
    /// A string without interpolation.
    QuotedString(String),
    /// A string with interpolation: the literal parts, and what stands
    /// between each two of them. There is one part more than there are
    /// interpolations.
    InterpolatedString(Vec<String>, Vec<InterpolatedValue>),
    /// `@name`
    Variable(String),
    /// `$name`
    Property(String),
    /// `@name[..]`, with one lookup at least.
    VariableLookup(String, Vec<Lookup>),
    /// `{ .. }` as a value.
    DetachedRuleset(ListOfItems),
    /// `name(..)`: the name, and the arguments as a list.
    FunctionCall(String, Box<Expression>),
    /// The call of a mixin as a value, and the lookups after it.
    MixinCall(MixinCallExpression, Vec<Lookup>),
    /// Two operands joined by an operator.
    BinaryOperation(BinaryOperator, Box<Expression>, Box<Expression>),
    /// An operator in front of its operand. The parser reads none yet.
    UnaryOperation(BinaryOperator, Box<Expression>),
}

/// The call of a mixin: the segments of its selector, and its arguments.
#[derive(Debug, PartialEq, Eq)]
pub struct MixinCallExpression {
    pub selector: Vec<SimpleSelector>,
    pub arguments: Vec<MixinCallArgument>,
}

/// An argument of the call of a mixin: its name if it is named, and its
/// value.
#[derive(Debug, PartialEq, Eq)]
pub struct MixinCallArgument {
    pub name: Option<String>,
    pub value: Expression,
}

/// A parameter in the definition of a mixin.
#[derive(Debug, PartialEq, Eq)]
#[allow(inconsistent_fields)]
pub enum MixinDeclarationArgument {
    /// A variable (e.g. `@color`), with its default if it has one
    /// (e.g. `@color: blue`).
    Variable { name: String, default: Option<Expression> },
    /// A value to match (e.g. `blue`).
    Literal { value: Expression },
    /// The rest of the arguments: `...`, or with a name `@rest...`.
    Variadic { name: Option<String> },
}

/// What an [`Expression`] holds.
pub enum ExpressionModel {
    SemicolonList(Seq<ExpressionModel>),
    CommaList(Seq<ExpressionModel>),
    SpaceList(Seq<ExpressionModel>),
    Ident(Seq<char>),
    Numeric(NumberModel, Option<Seq<char>>),
    QuotedString(Seq<char>),
    InterpolatedString(Seq<Seq<char>>, Seq<InterpolatedValueModel>),
    Variable(Seq<char>),
    Property(Seq<char>),
    VariableLookup(Seq<char>, Seq<LookupModel>),
    DetachedRuleset(Seq<(ItemModel, Span)>),
    FunctionCall(Seq<char>, Box<ExpressionModel>),
    MixinCall(Seq<SimpleSelectorModel>, Seq<MixinCallArgumentModel>, Seq<LookupModel>),
    BinaryOperation(BinaryOperator, Box<ExpressionModel>, Box<ExpressionModel>),
    UnaryOperation(BinaryOperator, Box<ExpressionModel>),
}

/// What a [`MixinCallArgument`] holds.
pub struct MixinCallArgumentModel {
    pub name: Option<Seq<char>>,
    pub value: ExpressionModel,
}

/// What a [`MixinDeclarationArgument`] holds.
#[allow(inconsistent_fields)]
pub enum MixinDeclarationArgumentModel {
    Variable { name: Seq<char>, default: Option<ExpressionModel> },
    Literal { value: ExpressionModel },
    Variadic { name: Option<Seq<char>> },
}

/// What an expression holds.
pub open spec fn expression_model(expression: Expression) -> ExpressionModel
    decreases expression,
{
    match expression {
        Expression::SemicolonList(items) => ExpressionModel::SemicolonList(
            expressions_model(items@, items@.len()),
        ),
        Expression::CommaList(items) => ExpressionModel::CommaList(
            expressions_model(items@, items@.len()),
        ),
        Expression::SpaceList(items) => ExpressionModel::SpaceList(
            expressions_model(items@, items@.len()),
        ),
        Expression::Ident(text) => ExpressionModel::Ident(text@),
        Expression::Numeric(number, unit) => ExpressionModel::Numeric(number@, optional_text(unit)),
        Expression::QuotedString(text) => ExpressionModel::QuotedString(text@),
        Expression::InterpolatedString(parts, values) => ExpressionModel::InterpolatedString(
            strings_view(parts@),
            interpolations_view(values@),
        ),
        Expression::Variable(name) => ExpressionModel::Variable(name@),
        Expression::Property(name) => ExpressionModel::Property(name@),
        Expression::VariableLookup(name, lookups) => ExpressionModel::VariableLookup(
            name@,
            lookups_view(lookups@),
        ),
        Expression::DetachedRuleset(items) => ExpressionModel::DetachedRuleset(items@),
        Expression::FunctionCall(name, arguments) => ExpressionModel::FunctionCall(
            name@,
            Box::new(expression_model(*arguments)),
        ),
        Expression::MixinCall(call, lookups) => ExpressionModel::MixinCall(
            simple_selectors_view(call.selector@),
            arguments_model(call.arguments@, call.arguments@.len()),
            lookups_view(lookups@),
        ),
        Expression::BinaryOperation(operator, left, right) => ExpressionModel::BinaryOperation(
            operator,
            Box::new(expression_model(*left)),
            Box::new(expression_model(*right)),
        ),
        Expression::UnaryOperation(operator, operand) => ExpressionModel::UnaryOperation(
            operator,
            Box::new(expression_model(*operand)),
        ),
    }
}

/// What the first `n` of a sequence of expressions hold.
pub open spec fn expressions_model(items: Seq<Expression>, n: nat) -> Seq<ExpressionModel>
    decreases items, n,
{
    if n == 0 || n > items.len() {
        Seq::empty()
    } else {
        expressions_model(items, (n - 1) as nat).push(expression_model(items[n - 1]))
    }
}

/// What the first `n` of a sequence of arguments hold.
pub open spec fn arguments_model(items: Seq<MixinCallArgument>, n: nat) -> Seq<
    MixinCallArgumentModel,
>
    decreases items, n,
{
    if n == 0 || n > items.len() {
        Seq::empty()
    } else {
        arguments_model(items, (n - 1) as nat).push(
            MixinCallArgumentModel {
                name: optional_text(items[n - 1].name),
                value: expression_model(items[n - 1].value),
            },
        )
    }
}

impl View for Expression {
    type V = ExpressionModel;

    open spec fn view(&self) -> ExpressionModel {
        expression_model(*self)
    }
}

impl View for MixinCallArgument {
    type V = MixinCallArgumentModel;

    open spec fn view(&self) -> MixinCallArgumentModel {
        MixinCallArgumentModel { name: optional_text(self.name), value: self.value@ }
    }
}

/// What an optional expression holds.
pub open spec fn optional_expression(expression: Option<Expression>) -> Option<ExpressionModel> {
    match expression {
        Some(expression) => Some(expression@),
        None => None,
    }
}

impl View for MixinDeclarationArgument {
    type V = MixinDeclarationArgumentModel;

    open spec fn view(&self) -> MixinDeclarationArgumentModel {
        match self {
            MixinDeclarationArgument::Variable { name, default } => {
                MixinDeclarationArgumentModel::Variable {
                    name: name@,
                    default: optional_expression(*default),
                }
            },
            MixinDeclarationArgument::Literal { value } => MixinDeclarationArgumentModel::Literal {
                value: value@,
            },
            MixinDeclarationArgument::Variadic { name } => MixinDeclarationArgumentModel::Variadic {
                name: optional_text(*name),
            },
        }
    }
}

/// What a sequence of expressions holds.
pub open spec fn expressions_view(items: Seq<Expression>) -> Seq<ExpressionModel> {
    Seq::new(items.len(), |i: int| items[i]@)
}

/// What a sequence of arguments of a call holds.
pub open spec fn arguments_view(items: Seq<MixinCallArgument>) -> Seq<MixinCallArgumentModel> {
    Seq::new(items.len(), |i: int| items[i]@)
}

/// What a sequence of parameters of a definition holds.
pub open spec fn parameters_view(items: Seq<MixinDeclarationArgument>) -> Seq<
    MixinDeclarationArgumentModel,
> {
    Seq::new(items.len(), |i: int| items[i]@)
}

/// `expressions_model` goes through the sequence item by item.
pub proof fn lemma_expressions_model(items: Seq<Expression>, n: nat)
    requires
        n <= items.len(),
    ensures
        expressions_model(items, n) == expressions_view(items.subrange(0, n as int)),
    decreases n,
{
    if n > 0 {
        lemma_expressions_model(items, (n - 1) as nat);
        assert(expressions_view(items.subrange(0, n - 1)).push(items[n - 1]@) =~= expressions_view(
            items.subrange(0, n as int),
        ));
    } else {
        assert(expressions_model(items, n) =~= expressions_view(items.subrange(0, n as int)));
    }
}

/// `arguments_model` goes through the sequence item by item.
pub proof fn lemma_arguments_model(items: Seq<MixinCallArgument>, n: nat)
    requires
        n <= items.len(),
    ensures
        arguments_model(items, n) == arguments_view(items.subrange(0, n as int)),
    decreases n,
{
    if n > 0 {
        lemma_arguments_model(items, (n - 1) as nat);
        assert(arguments_view(items.subrange(0, n - 1)).push(items[n - 1]@) =~= arguments_view(
            items.subrange(0, n as int),
        ));
    } else {
        assert(arguments_model(items, n) =~= arguments_view(items.subrange(0, n as int)));
    }
}

/// Whether the value keeps the rules of its shape, in all of its parts: a
/// list holds one value at least, and an interpolated string holds one
/// literal part more than it holds interpolations.
pub open spec fn well_formed(expression: ExpressionModel) -> bool
    decreases expression,
{
    match expression {
        ExpressionModel::SemicolonList(items) => items.len() >= 1 && forall|k: int|
            0 <= k < items.len() ==> well_formed(#[trigger] items[k]),
        ExpressionModel::CommaList(items) => items.len() >= 1 && forall|k: int|
            0 <= k < items.len() ==> well_formed(#[trigger] items[k]),
        ExpressionModel::SpaceList(items) => items.len() >= 1 && forall|k: int|
            0 <= k < items.len() ==> well_formed(#[trigger] items[k]),
        ExpressionModel::InterpolatedString(parts, values) => parts.len() == values.len() + 1,
        ExpressionModel::FunctionCall(_, arguments) => well_formed(*arguments),
        ExpressionModel::MixinCall(_, arguments, _) => forall|k: int|
            0 <= k < arguments.len() ==> well_formed((#[trigger] arguments[k]).value),
        ExpressionModel::BinaryOperation(_, left, right) => well_formed(*left) && well_formed(
            *right,
        ),
        ExpressionModel::UnaryOperation(_, operand) => well_formed(*operand),
        _ => true,
    }
}

/// Whether the value that is there, if one is, is well-formed.
pub open spec fn optional_well_formed(expression: Option<ExpressionModel>) -> bool {
    expression matches Some(expression) ==> well_formed(expression)
}

/// The three kinds of lists.
#[derive(Clone, Copy, Debug, PartialEq, Eq, Structural)]
pub enum ListKind {
    Semicolon,
    Comma,
    Space,
}

/// The list of kind `kind` that holds `items`.
pub open spec fn list_model(kind: ListKind, items: Seq<ExpressionModel>) -> ExpressionModel {
    match kind {
        ListKind::Semicolon => ExpressionModel::SemicolonList(items),
        ListKind::Comma => ExpressionModel::CommaList(items),
        ListKind::Space => ExpressionModel::SpaceList(items),
    }
}

/// The list of kind `kind` that holds `items`.
pub fn list(kind: ListKind, items: Vec<Expression>) -> (r: Expression)
    requires
        items.len() >= 1,
        forall|k: int| 0 <= k < items.len() ==> well_formed((#[trigger] items[k])@),
    ensures
        r@ == list_model(kind, expressions_view(items@)),
        well_formed(r@),
{
    proof {
        lemma_expressions_model(items@, items@.len());
        assert(items@.subrange(0, items@.len() as int) =~= items@);
    }
    match kind {
        ListKind::Semicolon => Expression::SemicolonList(items),
        ListKind::Comma => Expression::CommaList(items),
        ListKind::Space => Expression::SpaceList(items),
    }
}

/// The call of a mixin as a value.
pub fn mixin_call_value(selector: Vec<SimpleSelector>, arguments: Vec<MixinCallArgument>) -> (r:
    Expression)
    requires
        forall|k: int| 0 <= k < arguments.len() ==> well_formed((#[trigger] arguments[k]).value@),
    ensures
        r@ == ExpressionModel::MixinCall(
            simple_selectors_view(selector@),
            arguments_view(arguments@),
            Seq::empty(),
        ),
        well_formed(r@),
{
    proof {
        lemma_arguments_model(arguments@, arguments@.len());
        assert(arguments@.subrange(0, arguments@.len() as int) =~= arguments@);
    }
    let lookups: Vec<Lookup> = Vec::new();
    assert(lookups_view(lookups@) =~= Seq::empty());
    Expression::MixinCall(MixinCallExpression { selector, arguments }, lookups)
}

/// A block with the guard that stands in front of it.
#[derive(Debug, PartialEq, Eq)]
pub struct GuardedBlock {
    pub guard: Option<Expression>,
    pub items: ListOfItems,
}

/// What a [`GuardedBlock`] holds.
pub struct GuardedBlockModel {
    pub guard: Option<ExpressionModel>,
    pub items: Seq<(ItemModel, Span)>,
}

impl View for GuardedBlock {
    type V = GuardedBlockModel;

    open spec fn view(&self) -> GuardedBlockModel {
        GuardedBlockModel { guard: optional_expression(self.guard), items: self.items@ }
    }
}

/// The definition of a mixin, its parameters and its guard read.
#[derive(Debug, PartialEq, Eq)]
pub struct MixinDeclaration {
    pub selector: SimpleSelector,
    pub arguments: Vec<MixinDeclarationArgument>,
    pub block: GuardedBlock,
}

/// What a [`MixinDeclaration`] holds.
pub struct MixinDeclarationModel {
    pub selector: SimpleSelectorModel,
    pub arguments: Seq<MixinDeclarationArgumentModel>,
    pub block: GuardedBlockModel,
}

impl View for MixinDeclaration {
    type V = MixinDeclarationModel;

    open spec fn view(&self) -> MixinDeclarationModel {
        MixinDeclarationModel {
            selector: self.selector@,
            arguments: parameters_view(self.arguments@),
            block: self.block@,
        }
    }
}

impl View for MixinCallExpression {
    type V = (Seq<SimpleSelectorModel>, Seq<MixinCallArgumentModel>);

    open spec fn view(&self) -> (Seq<SimpleSelectorModel>, Seq<MixinCallArgumentModel>) {
        (simple_selectors_view(self.selector@), arguments_view(self.arguments@))
    }
}

impl Clone for Lookup {
    fn clone(&self) -> (r: Self)
        ensures
            r@ == self@,
    {
        match self {
            Lookup::Last => Lookup::Last,
            Lookup::Ident(name) => Lookup::Ident(name.clone()),
            Lookup::Variable(name) => Lookup::Variable(name.clone()),
            Lookup::Property(name) => Lookup::Property(name.clone()),
            Lookup::VariableVariable(name) => Lookup::VariableVariable(name.clone()),
            Lookup::VariableProperty(name) => Lookup::VariableProperty(name.clone()),
        }
    }
}

impl Clone for InterpolatedValue {
    fn clone(&self) -> (r: Self)
        ensures
            r@ == self@,
    {
        match self {
            InterpolatedValue::Variable(name) => InterpolatedValue::Variable(name.clone()),
            InterpolatedValue::Property(name) => InterpolatedValue::Property(name.clone()),
        }
    }
}

/// A copy of a sequence of lookups.
fn clone_lookups(lookups: &Vec<Lookup>) -> (r: Vec<Lookup>)
    ensures
        lookups_view(r@) == lookups_view(lookups@),
{
    let mut out: Vec<Lookup> = Vec::new();
    let mut i: usize = 0;
    while i < lookups.len()
        invariant
            i <= lookups.len(),
            out.len() == i,
            forall|k: int| 0 <= k < i ==> (#[trigger] out[k])@ == lookups[k]@,
        decreases lookups.len() - i,
    {
        out.push(lookups[i].clone());
        i += 1;
    }
    assert(lookups_view(out@) =~= lookups_view(lookups@));
    out
}

/// A copy of a sequence of strings.
fn clone_strings(strings: &Vec<String>) -> (r: Vec<String>)
    ensures
        strings_view(r@) == strings_view(strings@),
{
    let mut out: Vec<String> = Vec::new();
    let mut i: usize = 0;
    while i < strings.len()
        invariant
            i <= strings.len(),
            out.len() == i,
            forall|k: int| 0 <= k < i ==> (#[trigger] out[k])@ == strings[k]@,
        decreases strings.len() - i,
    {
        out.push(strings[i].clone());
        i += 1;
    }
    assert(strings_view(out@) =~= strings_view(strings@));
    out
}

/// A copy of a sequence of interpolated values.
fn clone_interpolations(values: &Vec<InterpolatedValue>) -> (r: Vec<InterpolatedValue>)
    ensures
        interpolations_view(r@) == interpolations_view(values@),
{
    let mut out: Vec<InterpolatedValue> = Vec::new();
    let mut i: usize = 0;
    while i < values.len()
        invariant
            i <= values.len(),
            out.len() == i,
            forall|k: int| 0 <= k < i ==> (#[trigger] out[k])@ == values[k]@,
        decreases values.len() - i,
    {
        out.push(values[i].clone());
        i += 1;
    }
    assert(interpolations_view(out@) =~= interpolations_view(values@));
    out
}

/// A copy of an optional string.
fn clone_text(text: &Option<String>) -> (r: Option<String>)
    ensures
        optional_text(r) == optional_text(*text),
{
    match text {
        Some(text) => Some(text.clone()),
        None => None,
    }
}

/// A copy of a sequence of expressions.
pub fn clone_expressions(items: &Vec<Expression>) -> (r: Vec<Expression>)
    ensures
        expressions_view(r@) == expressions_view(items@),
    decreases items,
{
    let mut out: Vec<Expression> = Vec::new();
    let mut i: usize = 0;
    while i < items.len()
        invariant
            i <= items.len(),
            out.len() == i,
            forall|k: int| 0 <= k < i ==> (#[trigger] out[k])@ == items[k]@,
        decreases items.len() - i,
    {
        out.push(items[i].clone());
        i += 1;
    }
    assert(expressions_view(out@) =~= expressions_view(items@));
    out
}

/// A copy of a sequence of arguments of a call.
pub fn clone_arguments(items: &Vec<MixinCallArgument>) -> (r: Vec<MixinCallArgument>)
    ensures
        arguments_view(r@) == arguments_view(items@),
    decreases items,
{
    let mut out: Vec<MixinCallArgument> = Vec::new();
    let mut i: usize = 0;
    while i < items.len()
        invariant
            i <= items.len(),
            out.len() == i,
            forall|k: int| 0 <= k < i ==> (#[trigger] out[k])@ == items[k]@,
        decreases items.len() - i,
    {
        proof {
            assert(decreases_to!(*items => items[i as int]));
            assert(decreases_to!(items[i as int] => items[i as int].value));
        }
        let value = items[i].value.clone();
        out.push(MixinCallArgument { name: clone_text(&items[i].name), value });
        i += 1;
    }
    assert(arguments_view(out@) =~= arguments_view(items@));
    out
}

/// The view of a list is the list of the views.
proof fn lemma_list_views(items: Vec<Expression>)
    ensures
        expressions_model(items@, items@.len()) == expressions_view(items@),
{
    lemma_expressions_model(items@, items@.len());
    assert(items@.subrange(0, items@.len() as int) =~= items@);
}

/// The view of the arguments of a call is the sequence of their views.
proof fn lemma_argument_views(items: Vec<MixinCallArgument>)
    ensures
        arguments_model(items@, items@.len()) == arguments_view(items@),
{
    lemma_arguments_model(items@, items@.len());
    assert(items@.subrange(0, items@.len() as int) =~= items@);
}

impl Clone for Expression {
    fn clone(&self) -> (r: Self)
        ensures
            r@ == self@,
        decreases self,
    {
        match self {
            Expression::SemicolonList(items) => {
                let copy = clone_expressions(items);
                proof {
                    lemma_list_views(copy);
                    lemma_list_views(*items);
                }
                Expression::SemicolonList(copy)
            },
            Expression::CommaList(items) => {
                let copy = clone_expressions(items);
                proof {
                    lemma_list_views(copy);
                    lemma_list_views(*items);
                }
                Expression::CommaList(copy)
            },
            Expression::SpaceList(items) => {
                let copy = clone_expressions(items);
                proof {
                    lemma_list_views(copy);
                    lemma_list_views(*items);
                }
                Expression::SpaceList(copy)
            },
            Expression::Ident(text) => Expression::Ident(text.clone()),
            Expression::Numeric(number, unit) => Expression::Numeric(
                number.clone(),
                clone_text(unit),
            ),
            Expression::QuotedString(text) => Expression::QuotedString(text.clone()),
            Expression::InterpolatedString(parts, values) => Expression::InterpolatedString(
                clone_strings(parts),
                clone_interpolations(values),
            ),
            Expression::Variable(name) => Expression::Variable(name.clone()),
            Expression::Property(name) => Expression::Property(name.clone()),
            Expression::VariableLookup(name, lookups) => Expression::VariableLookup(
                name.clone(),
                clone_lookups(lookups),
            ),
            Expression::DetachedRuleset(items) => Expression::DetachedRuleset(clone_items(items)),
            Expression::FunctionCall(name, arguments) => {
                let copy = (**arguments).clone();
                Expression::FunctionCall(name.clone(), Box::new(copy))
            },
            Expression::MixinCall(call, lookups) => {
                let arguments = clone_arguments(&call.arguments);
                proof {
                    lemma_argument_views(arguments);
                    lemma_argument_views(call.arguments);
                }
                Expression::MixinCall(
                    MixinCallExpression {
                        selector: clone_simple_selectors(&call.selector),
                        arguments,
                    },
                    clone_lookups(lookups),
                )
            },
            Expression::BinaryOperation(operator, left, right) => {
                let left = (**left).clone();
                let right = (**right).clone();
                Expression::BinaryOperation(*operator, Box::new(left), Box::new(right))
            },
            Expression::UnaryOperation(operator, operand) => {
                let operand = (**operand).clone();
                Expression::UnaryOperation(*operator, Box::new(operand))
            },
        }
    }
}

impl Clone for MixinCallArgument {
    fn clone(&self) -> (r: Self)
        ensures
            r@ == self@,
    {
        MixinCallArgument { name: clone_text(&self.name), value: self.value.clone() }
    }
}

impl Clone for MixinCallExpression {
    fn clone(&self) -> (r: Self)
        ensures
            r@ == self@,
    {
        MixinCallExpression {
            selector: clone_simple_selectors(&self.selector),
            arguments: clone_arguments(&self.arguments),
        }
    }
}

/// A copy of an optional expression.
pub fn clone_optional_expression(expression: &Option<Expression>) -> (r: Option<Expression>)
    ensures
        optional_expression(r) == optional_expression(*expression),
{
    match expression {
        Some(expression) => Some(expression.clone()),
        None => None,
    }
}

impl Clone for MixinDeclarationArgument {
    fn clone(&self) -> (r: Self)
        ensures
            r@ == self@,
    {
        match self {
            MixinDeclarationArgument::Variable { name, default } => {
                MixinDeclarationArgument::Variable {
                    name: name.clone(),
                    default: clone_optional_expression(default),
                }
            },
            MixinDeclarationArgument::Literal { value } => MixinDeclarationArgument::Literal {
                value: value.clone(),
            },
            MixinDeclarationArgument::Variadic { name } => MixinDeclarationArgument::Variadic {
                name: clone_text(name),
            },
        }
    }
}

impl Clone for GuardedBlock {
    fn clone(&self) -> (r: Self)
        ensures
            r@ == self@,
    {
        GuardedBlock { guard: clone_optional_expression(&self.guard), items: clone_items(&self.items) }
    }
}

impl Clone for MixinDeclaration {
    fn clone(&self) -> (r: Self)
        ensures
            r@ == self@,
    {
        let mut arguments: Vec<MixinDeclarationArgument> = Vec::new();
        let mut i: usize = 0;
        while i < self.arguments.len()
            invariant
                i <= self.arguments.len(),
                arguments.len() == i,
                forall|k: int| 0 <= k < i ==> (#[trigger] arguments[k])@ == self.arguments[k]@,
            decreases self.arguments.len() - i,
        {
            arguments.push(self.arguments[i].clone());
            i += 1;
        }
        assert(parameters_view(arguments@) =~= parameters_view(self.arguments@));
        MixinDeclaration { selector: self.selector.clone(), arguments, block: self.block.clone() }
    }
}

} // verus!
