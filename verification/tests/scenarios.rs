use less::ast::expression::{Expression, Lookup};
use less::ast::selector::SimpleSelector;
use less::ast::{
    AtRule, Call, Declaration, DeclarationName, GenericAtRule, GenericRule, Item,
    ListOfComponentValues, ListOfItems, MixinCall, MixinRule, QualifiedRule, StyleRule, Stylesheet,
};
use less::lexer::{lexer, Delim, Span, Spanned, Token, TokenTree};
use less::parser::expression::{
    boolean_expression, declaration_value, simple, variable_declaration_value,
};
use less::parser::mixin::{guard_expression, parameters};
use less::parser::selector::selector_group;
use less::ast::selector::{Selector, SelectorGroup, SimpleSelectorSequence};
use less::parser::{lex_error, parser, ErrorKind, ParseError};
use less::parse;

fn tok(token: Token, start: usize, end: usize) -> Spanned<TokenTree> {
    (TokenTree::Token(token), Span::new(start, end))
}

fn ident(name: &str, start: usize) -> Spanned<TokenTree> {
    tok(Token::Ident(name.into()), start, start + name.len())
}

fn items(input: &str) -> Vec<Spanned<Item>> {
    parse(input).unwrap().items.0
}

fn only_item(input: &str) -> Item {
    let mut found = items(input);
    assert_eq!(found.len(), 1);
    found.remove(0).0
}

fn error(kind: ErrorKind, start: usize, end: usize) -> ParseError {
    ParseError { kind, span: Span::new(start, end), secondary: None }
}

fn error_in(kind: ErrorKind, start: usize, end: usize, item: (usize, usize)) -> ParseError {
    ParseError { kind, span: Span::new(start, end), secondary: Some(Span::new(item.0, item.1)) }
}

fn bar_value() -> Expression {
    Expression::CommaList(vec![Expression::SpaceList(vec![Expression::Ident("bar".into())])])
}

#[test]
fn minimal_variable_declaration() {
    match only_item("@foo: bar;") {
        Item::Declaration(Declaration { name, value, important }) => {
            assert_eq!(name, DeclarationName::Variable("foo".into()));
            assert!(!important);
            assert_eq!(variable_declaration_value(&value.0, 0), Ok((bar_value(), 1)));
        }
        other => panic!("not a declaration: {:?}", other),
    }
}

#[test]
fn important_declaration() {
    match only_item("foo: bar !important;") {
        Item::Declaration(Declaration { name, value, important }) => {
            assert_eq!(name, DeclarationName::Ident("foo".into()));
            assert!(important);
            assert_eq!(value, ListOfComponentValues(vec![ident("bar", 5)]));
            assert_eq!(declaration_value(&value.0, 0), Ok((bar_value(), 1)));
        }
        other => panic!("not a declaration: {:?}", other),
    }
}

#[test]
fn important_takes_the_last_two_tokens_that_are_no_junk() {
    let important = |input: &str| match only_item(input) {
        Item::Declaration(declaration) => (declaration.value.0.len(), declaration.important),
        other => panic!("not a declaration: {:?}", other),
    };
    assert_eq!(important("a: b !important"), (1, true));
    assert_eq!(important("a: b ! /* c */ important  ;"), (1, true));
    assert_eq!(important("a: b!important;"), (1, true));
    assert_eq!(important("a: !important;"), (0, true));
    assert_eq!(important("a: b important;"), (3, false));
    assert_eq!(important("a: b !important c;"), (6, false));
    assert_eq!(important("a: b !Important;"), (4, false));
    assert_eq!(important("a: b ! important !;"), (7, false));
    assert_eq!(important("a: ;"), (0, false));
    assert_eq!(important("a:"), (0, false));
}

#[test]
fn nested_at_rule_with_prelude_and_block() {
    assert_eq!(
        only_item("@foo bar { @baz; }"),
        Item::AtRule(AtRule::Generic(GenericAtRule {
            name: "foo".into(),
            prelude: ListOfComponentValues(vec![ident("bar", 5)]),
            block: Some(ListOfItems(vec![(
                Item::AtRule(AtRule::Generic(GenericAtRule {
                    name: "baz".into(),
                    prelude: ListOfComponentValues(vec![]),
                    block: None,
                })),
                Span::new(11, 16)
            )])),
        }))
    );
}

#[test]
fn variable_lookup_chain() {
    let tts = lexer("@colors[primary][]").unwrap();
    assert_eq!(
        simple(&tts, 0),
        Ok((
            Expression::VariableLookup(
                "colors".into(),
                vec![Lookup::Ident("primary".into()), Lookup::Last]
            ),
            4
        ))
    );
}

#[test]
fn guarded_mixin_definition() {
    match only_item(".guarded() when (true) { }") {
        Item::QualifiedRule(QualifiedRule::Mixin(MixinRule { name, arguments, guard, block })) => {
            assert_eq!(name, SimpleSelector::Class("guarded".into()));
            assert_eq!(parameters(&arguments), Ok(vec![]));
            let guard = guard.unwrap();
            assert_eq!(
                guard,
                ListOfComponentValues(vec![(
                    TokenTree::Tree(Delim::Paren, vec![ident("true", 17)]),
                    Span::new(16, 22)
                )])
            );
            assert_eq!(guard_expression(&guard), Ok(Expression::Ident("true".into())));
            assert_eq!(block, ListOfItems(vec![]));
        }
        other => panic!("not the definition of a mixin: {:?}", other),
    }
}

#[test]
fn a_guard_makes_a_style_rule() {
    match only_item("a b when (@x) and (@y) { }") {
        Item::QualifiedRule(QualifiedRule::Style(StyleRule { selectors, guard, block })) => {
            assert_eq!(
                selectors,
                ListOfComponentValues(vec![ident("a", 0), tok(Token::Whitespace, 1, 2), ident("b", 2)])
            );
            let guard = guard.unwrap();
            assert_eq!(guard.0.len(), 5);
            assert!(matches!(boolean_expression(&guard.0, 0), Ok((Expression::BinaryOperation(..), 5))));
            assert_eq!(block, ListOfItems(vec![]));
        }
        other => panic!("not a style rule: {:?}", other),
    }
    assert_eq!(parse("a when { }"), Err(error(ErrorKind::EmptyExpression, 7, 10)));
}

#[test]
fn shapes_of_items_in_their_order() {
    let kinds = |input: &str| -> Vec<&'static str> {
        items(input)
            .iter()
            .map(|(item, _)| match item {
                Item::AtRule(_) => "at-rule",
                Item::QualifiedRule(QualifiedRule::Generic(_)) => "rule",
                Item::QualifiedRule(QualifiedRule::Style(_)) => "style rule",
                Item::QualifiedRule(QualifiedRule::Mixin(_)) => "mixin",
                Item::Declaration(Declaration { name: DeclarationName::Variable(_), .. }) => {
                    "variable"
                }
                Item::Declaration(_) => "declaration",
                Item::Call(Call::Mixin(_)) => "mixin call",
                Item::Call(Call::Variable(_)) => "variable call",
                Item::Call(Call::Function(_)) => "function call",
            })
            .collect()
    };
    assert_eq!(
        kinds(
            "@a: 1; @b(); @b( ) ; @c (); @d(1); @e x { } @f;\n\
             .m() { } #n (@a) when (1) { } .m.n() { } a:hover { } {}\n\
             c: d; e : f { g: h }"
        ),
        vec![
            "variable",
            "variable call",
            "variable call",
            "at-rule",
            "at-rule",
            "at-rule",
            "at-rule",
            "mixin",
            "mixin",
            "rule",
            "rule",
            "rule",
            "declaration",
            "rule",
        ]
    );
    assert_eq!(
        kinds(".m(); #n > .m (1) ; .a .b(2); f(x) ; g: h"),
        vec!["mixin call", "mixin call", "mixin call", "function call", "declaration"]
    );
    assert_eq!(kinds("@detached: { a: b };"), vec!["variable"]);
    assert_eq!(kinds(""), Vec::<&str>::new());
    assert_eq!(kinds(" /* a */ "), Vec::<&str>::new());
}

#[test]
fn spans_of_items_go_from_left_to_right() {
    let input = " a: b; @c d { e: f } .m(1) ;\n g { h { i: j } } k: l";
    let found = items(input);
    let spans: Vec<(usize, usize)> = found.iter().map(|(_, s)| (s.start, s.end)).collect();
    assert_eq!(spans, vec![(1, 6), (7, 20), (21, 28), (30, 46), (47, 51)]);
    for (text, (start, end)) in
        ["a: b;", "@c d { e: f }", ".m(1) ;", "g { h { i: j } }", "k: l"].iter().zip(&spans)
    {
        assert_eq!(&input[*start..*end], *text);
    }
    let (sheet, span) = parser(&lexer(input).unwrap()).unwrap();
    assert_eq!(span, Span::new(0, input.len()));
    assert_eq!(sheet, Stylesheet { items: ListOfItems(found) });
    assert_eq!(parser(&[]), Ok((Stylesheet { items: ListOfItems(vec![]) }, Span::new(0, 0))));
}

#[test]
fn a_mixin_call_keeps_its_selector_and_arguments() {
    assert_eq!(
        only_item("#ns > .m ( 1 ) ;"),
        Item::Call(Call::Mixin(MixinCall {
            selector: ListOfComponentValues(vec![
                tok(Token::Hash("ns".into()), 0, 3),
                tok(Token::Whitespace, 3, 4),
                tok(Token::Symbol('>'), 4, 5),
                tok(Token::Whitespace, 5, 6),
                tok(Token::Symbol('.'), 6, 7),
                ident("m", 7),
            ]),
            arguments: ListOfComponentValues(vec![
                tok(Token::Whitespace, 10, 11),
                tok(
                    Token::Number(less::lexer::Number {
                        negative: false,
                        integer: "1".into(),
                        fraction: "".into(),
                        exponent_negative: false,
                        exponent: "".into()
                    }),
                    11,
                    12
                ),
                tok(Token::Whitespace, 12, 13),
            ]),
        }))
    );
}

#[test]
fn a_rule_keeps_its_prelude_without_the_junk_at_its_ends() {
    assert_eq!(
        only_item(" a > b  { }"),
        Item::QualifiedRule(QualifiedRule::Generic(GenericRule {
            prelude: ListOfComponentValues(vec![
                ident("a", 1),
                tok(Token::Whitespace, 2, 3),
                tok(Token::Symbol('>'), 3, 4),
                tok(Token::Whitespace, 4, 5),
                ident("b", 5),
            ]),
            block: ListOfItems(vec![]),
        }))
    );
}

#[test]
fn errors_of_the_lexer() {
    assert_eq!(parse("a: \"b;"), Err(error(ErrorKind::UnterminatedString, 3, 4)));
    assert_eq!(parse("a: (b;"), Err(error(ErrorKind::UnmatchedOpenDelimiter, 3, 4)));
    assert_eq!(parse("a: b; }"), Err(error(ErrorKind::StrayCloseDelimiter, 6, 7)));
    assert_eq!(parse("a: @b[;"), Err(error(ErrorKind::UnmatchedOpenDelimiter, 5, 6)));
    assert_eq!(parse("@{a: b;"), Err(error(ErrorKind::UnmatchedOpenDelimiter, 1, 2)));
    assert_eq!(
        lex_error(less::lexer::LexError::StrayClose(Delim::Brace, usize::MAX)),
        error(ErrorKind::StrayCloseDelimiter, usize::MAX, usize::MAX)
    );
}

#[test]
fn an_interpolation_that_is_not_closed() {
    match only_item("a: \"b @{c\";") {
        Item::Declaration(declaration) => assert_eq!(
            declaration_value(&declaration.value.0, 0),
            Err(error(ErrorKind::UnterminatedInterpolation, 6, 7))
        ),
        other => panic!("not a declaration: {:?}", other),
    }
}

#[test]
fn errors_of_items() {
    assert_eq!(parse("a b"), Err(error(ErrorKind::UnknownItemShape, 0, 1)));
    assert_eq!(parse("a: b; ;"), Err(error(ErrorKind::UnknownItemShape, 6, 7)));
    assert_eq!(parse("x { @{a}: b; }"), Err(error(ErrorKind::UnknownItemShape, 6, 7)));
    assert_eq!(parse("border-@{side}: b;"), Err(error(ErrorKind::UnknownItemShape, 9, 13)));
    assert_eq!(parse("x { a: b; c }"), Err(error(ErrorKind::UnknownItemShape, 10, 11)));
    assert_eq!(parse(".m()"), Err(error_in(ErrorKind::ExpectedSemicolon, 4, 4, (0, 1))));
    assert_eq!(parse(".m() x;"), Err(error_in(ErrorKind::ExpectedSemicolon, 5, 6, (0, 1))));
    assert_eq!(parse(" f(1)"), Err(error_in(ErrorKind::ExpectedSemicolon, 5, 5, (1, 2))));
    assert_eq!(parse(".m() when (a);"), Err(error_in(ErrorKind::ExpectedBlock, 13, 14, (0, 1))));
    assert_eq!(parse(".m() when (a)"), Err(error_in(ErrorKind::ExpectedBlock, 13, 13, (0, 1))));
    assert_eq!(parse(".m() when { }"), Err(error(ErrorKind::EmptyExpression, 10, 13)));
}

/// The trees of `values` without their spans.
fn unspanned(values: &ListOfComponentValues) -> Vec<TokenTree> {
    values.0.iter().map(|(tree, _)| tree.clone()).collect()
}

fn number_token(integer: &str) -> TokenTree {
    TokenTree::Token(Token::Number(less::lexer::Number {
        negative: false,
        integer: integer.into(),
        fraction: "".into(),
        exponent_negative: false,
        exponent: "".into(),
    }))
}

fn numbers_one_two_three() -> Vec<TokenTree> {
    vec![
        number_token("1"),
        TokenTree::Token(Token::Symbol(',')),
        TokenTree::Token(Token::Whitespace),
        number_token("2"),
        TokenTree::Token(Token::Symbol(',')),
        TokenTree::Token(Token::Whitespace),
        number_token("3"),
    ]
}

#[test]
fn test_parse() {
    let input = r#"
            @foo: bar;
            @bar: 1, 2, 3;
        
            @foo();
            @bar(1, 2, 3);
        "#;
    let found = items(input);
    assert_eq!(found.len(), 4);
    match &found[0].0 {
        Item::Declaration(Declaration { name, value, important: false }) => {
            assert_eq!(*name, DeclarationName::Variable("foo".into()));
            assert_eq!(unspanned(value), vec![TokenTree::Token(Token::Ident("bar".into()))]);
        }
        other => panic!("not the declaration of a variable: {:?}", other),
    }
    match &found[1].0 {
        Item::Declaration(Declaration { name, value, important: false }) => {
            assert_eq!(*name, DeclarationName::Variable("bar".into()));
            assert_eq!(unspanned(value), numbers_one_two_three());
        }
        other => panic!("not the declaration of a variable: {:?}", other),
    }
    match &found[2].0 {
        Item::Call(Call::Variable(call)) => assert_eq!(call.name, "foo"),
        other => panic!("not the call of a variable: {:?}", other),
    }
    // The call of a variable takes no arguments: with arguments in the
    // parentheses, `@bar(..)` is an at-rule.
    match &found[3].0 {
        Item::AtRule(AtRule::Generic(GenericAtRule { name, prelude, block: None })) => {
            assert_eq!(name, "bar");
            assert_eq!(
                unspanned(prelude),
                vec![TokenTree::Tree(
                    Delim::Paren,
                    lexer("1, 2, 3").unwrap().into_iter().map(|(t, s)| (t, Span::new(s.start + 97, s.end + 97))).collect()
                )]
            );
        }
        other => panic!("not an at-rule: {:?}", other),
    }
}

fn blue_value() -> Expression {
    Expression::CommaList(vec![Expression::SpaceList(vec![Expression::Ident("blue".into())])])
}

fn selector_a() -> SelectorGroup {
    SelectorGroup(vec![Selector(
        vec![SimpleSelectorSequence(vec![SimpleSelector::Type("a".into())])],
        vec![],
    )])
}

#[test]
fn test_declaration() {
    match only_item("color: blue;") {
        Item::Declaration(Declaration { name, value, important }) => {
            assert_eq!(name, DeclarationName::Ident("color".into()));
            assert_eq!(declaration_value(&value.0, 0), Ok((blue_value(), 1)));
            assert!(!important);
        }
        other => panic!("not a declaration: {:?}", other),
    }
}

#[test]
fn test_qualified_rule() {
    match only_item("a { color: blue; }") {
        Item::QualifiedRule(QualifiedRule::Generic(GenericRule { prelude, block })) => {
            assert_eq!(selector_group(&prelude.0, 0), Ok((selector_a(), 1)));
            assert_eq!(block.0.len(), 1);
            match &block.0[0].0 {
                Item::Declaration(Declaration { name, value, important }) => {
                    assert_eq!(*name, DeclarationName::Ident("color".into()));
                    assert_eq!(declaration_value(&value.0, 0), Ok((blue_value(), 1)));
                    assert!(!important);
                }
                other => panic!("not a declaration: {:?}", other),
            }
        }
        other => panic!("not a qualified rule: {:?}", other),
    }

    match only_item("a when (true) { }") {
        Item::QualifiedRule(QualifiedRule::Style(StyleRule { selectors, guard, block })) => {
            assert_eq!(selector_group(&selectors.0, 0), Ok((selector_a(), 1)));
            assert_eq!(guard_expression(&guard.unwrap()), Ok(Expression::Ident("true".into())));
            assert_eq!(block, ListOfItems(vec![]));
        }
        other => panic!("not a style rule: {:?}", other),
    }
}
