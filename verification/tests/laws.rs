use less::ast::expression::{Expression, MixinCallArgument};
use less::ast::{AtRule, Item, QualifiedRule};
use less::lexer::number::digits_to_u32;
use less::lexer::{lexer, Number, Span, Spanned, Token, TokenTree};
use less::parse;
use less::parser::expression::{declaration_value, function_args};
use less::parser::selector::selector_group;

const SAMPLES: [&str; 8] = [
    "",
    "a",
    " a :b( c [ d ] ) { e: 'f' ; } ",
    "@x: 10px -1.5e3 .5 #fff /* c */ // d\n \"é日\" 😀;",
    ".m(@a; @b...) when (@a > 1) and (@b) { @r: { x: y }; }",
    "a{b{c{d:e}}}f{}",
    "- -- -a --b -1 +2 - \\ \\a #a # url(x) U+26 ~'s' a/*",
    "é\u{3000}\u{a0} b\u{2028}c",
];

/// The spans of `trees` follow one another from `start` to `end`, and so do
/// those of the content of each group between its brackets.
fn assert_contiguous(trees: &[Spanned<TokenTree>], start: usize, end: usize) {
    let mut at = start;
    for (tree, span) in trees {
        assert_eq!(span.start, at);
        assert!(span.start < span.end);
        if let TokenTree::Tree(_, content) = tree {
            assert_contiguous(content, span.start + 1, span.end - 1);
        }
        at = span.end;
    }
    assert_eq!(at, end);
}

#[test]
fn spans_cover_the_text() {
    for input in SAMPLES {
        assert_contiguous(&lexer(input).unwrap(), 0, input.len());
    }
}

fn assert_balanced(input: &str, trees: &[Spanned<TokenTree>]) {
    for (tree, span) in trees {
        if let TokenTree::Tree(delim, content) = tree {
            assert_eq!(input.as_bytes()[span.start], delim.open() as u8);
            assert_eq!(input.as_bytes()[span.end - 1], delim.close() as u8);
            assert_balanced(input, content);
        }
    }
}

#[test]
fn groups_are_balanced() {
    for input in SAMPLES {
        assert_balanced(input, &lexer(input).unwrap());
    }
}

/// `tree` with its spans `offset` bytes further to the front.
fn shifted(tree: &Spanned<TokenTree>, offset: usize) -> Spanned<TokenTree> {
    let span = Span::new(tree.1.start - offset, tree.1.end - offset);
    match &tree.0 {
        TokenTree::Token(token) => (TokenTree::Token(token.clone()), span),
        TokenTree::Tree(delim, content) => (
            TokenTree::Tree(*delim, content.iter().map(|tree| shifted(tree, offset)).collect()),
            span,
        ),
    }
}

fn assert_relexes(input: &str, trees: &[Spanned<TokenTree>]) {
    for tree in trees {
        if tree.0 != TokenTree::Token(Token::Ident("-".into())) {
            assert_eq!(
                lexer(&input[tree.1.start..tree.1.end]),
                Ok(vec![shifted(tree, tree.1.start)]),
                "{:?}",
                &input[tree.1.start..tree.1.end]
            );
        }
        if let TokenTree::Tree(_, content) = &tree.0 {
            assert_relexes(input, content);
        }
    }
}

#[test]
fn lexing_a_token_tree_again_gives_it() {
    for input in SAMPLES {
        assert_relexes(input, &lexer(input).unwrap());
    }
    // The identifier `-` is one only before a backslash.
    assert_eq!(
        lexer("-\\x"),
        Ok(vec![
            (TokenTree::Token(Token::Ident("-".into())), Span::new(0, 1)),
            (TokenTree::Token(Token::Symbol('\\')), Span::new(1, 2)),
            (TokenTree::Token(Token::Ident("x".into())), Span::new(2, 3)),
        ])
    );
    assert_eq!(lexer("-"), Ok(vec![(TokenTree::Token(Token::Symbol('-')), Span::new(0, 1))]));
}

fn assert_in_order(items: &[Spanned<Item>], start: usize, end: usize) {
    let mut at = start;
    for (item, span) in items {
        assert!(at <= span.start && span.start < span.end && span.end <= end);
        let block = match item {
            Item::AtRule(AtRule::Generic(rule)) => rule.block.as_ref(),
            Item::QualifiedRule(QualifiedRule::Generic(rule)) => Some(&rule.block),
            Item::QualifiedRule(QualifiedRule::Style(rule)) => Some(&rule.block),
            Item::QualifiedRule(QualifiedRule::Mixin(rule)) => Some(&rule.block),
            _ => None,
        };
        if let Some(block) = block {
            assert_in_order(&block.0, span.start, span.end);
        }
        at = span.end;
    }
}

#[test]
fn items_stand_in_the_order_of_their_spans() {
    for input in [
        "",
        " a: b; c { d: e; f { g: h } } @i j; .k() { l: m }  n: o",
        "@media x { a { b: c } d when (e) { f: g; } } .h(); i(j);",
    ] {
        assert_in_order(&parse(input).unwrap().items.0, 0, input.len());
    }
}

fn assert_well_formed(value: &Expression) {
    match value {
        Expression::SemicolonList(items)
        | Expression::CommaList(items)
        | Expression::SpaceList(items) => {
            assert!(!items.is_empty());
            items.iter().for_each(assert_well_formed);
        }
        Expression::InterpolatedString(parts, values) => {
            assert_eq!(parts.len(), values.len() + 1)
        }
        Expression::FunctionCall(_, arguments) => assert_well_formed(arguments),
        Expression::MixinCall(call, _) => {
            call.arguments.iter().for_each(|MixinCallArgument { value, .. }| assert_well_formed(value))
        }
        Expression::BinaryOperation(_, left, right) => {
            assert_well_formed(left);
            assert_well_formed(right);
        }
        Expression::UnaryOperation(_, operand) => assert_well_formed(operand),
        _ => {}
    }
}

#[test]
fn values_are_well_formed() {
    for input in [
        "a",
        "a b, c (d + e) * f, g(h, i; j k; { l: m }), \"n\" 'o@{p}q${r}' .s(@u: v w, t; x)",
        "@a[b][] = 1 and ~'c' or $d >= -2px",
        "'@{a}@{b}'",
    ] {
        let tts = lexer(input).unwrap();
        let (value, end) = declaration_value(&tts, 0).unwrap();
        assert_eq!(end, tts.len(), "{:?}", input);
        assert_well_formed(&value);
        if let Ok((arguments, _)) = function_args(&tts, 0) {
            assert_well_formed(&arguments);
        }
    }
}

#[test]
fn selectors_have_one_combinator_less_than_sequences() {
    let tts = lexer("a b > c, d + e ~ f g, h, * > [i]").unwrap();
    let (group, end) = selector_group(&tts, 0).unwrap();
    assert_eq!(end, tts.len());
    assert_eq!(group.0.len(), 4);
    for selector in &group.0 {
        assert_eq!(selector.1.len(), selector.0.len() - 1);
    }
}

#[test]
fn values_of_digits() {
    assert_eq!(digits_to_u32(""), Some(0));
    assert_eq!(digits_to_u32("0"), Some(0));
    assert_eq!(digits_to_u32("007"), Some(7));
    assert_eq!(digits_to_u32("4294967295"), Some(u32::MAX));
    assert_eq!(digits_to_u32("4294967296"), None);
    assert_eq!(digits_to_u32("42949672950"), None);
    assert_eq!(digits_to_u32("99999999999999999999"), None);
    assert_eq!(digits_to_u32("12a"), None);
    assert_eq!(digits_to_u32("-1"), None);
    assert_eq!(digits_to_u32("١"), None);
    let tts = lexer("-12.050e-3").unwrap();
    match &tts[0].0 {
        TokenTree::Token(Token::Number(number)) => {
            assert!(number.negative && number.exponent_negative);
            assert_eq!(number.integer_value(), Some(12));
            assert_eq!(number.fraction_value(), Some(50));
            assert_eq!(number.fraction.len(), 3);
            assert_eq!(number.exponent_digits_value(), Some(3));
            assert_eq!(number.exponent_value(), Some(-3));
            assert_eq!(number.sign(), -1);
        }
        other => panic!("not a number: {:?}", other),
    }
    let large = Number {
        negative: false,
        integer: "4294967296".into(),
        fraction: "".into(),
        exponent_negative: false,
        exponent: "".into(),
    };
    assert_eq!(large.integer_value(), None);
    assert_eq!((large.sign(), large.exponent_value()), (1, Some(0)));
    assert_eq!(large.fraction_value(), Some(0));
    assert_eq!(large.clone(), large);
}

#[test]
fn copies_are_equal() {
    let input = " a: b; c { d: e !important; f when (g) { @h: 1px; } } @i j { .k(@l: 1; m...) { } } .n(o);";
    let sheet = parse(input).unwrap();
    assert_eq!(sheet.clone(), sheet);
    assert_eq!(sheet.items.clone(), sheet.items);
    for (item, _) in &sheet.items.0 {
        assert_eq!(item.clone(), *item);
    }
    let tts = lexer("a b, c (d + e) * f, g(h; { l: m }), 'o@{p}q${r}' .s(@u: v, t; x) @y[z][]").unwrap();
    let (value, _) = declaration_value(&tts, 0).unwrap();
    assert_eq!(value.clone(), value);
    let tts = lexer("a.b:not(c) > d + e, *").unwrap();
    let (group, _) = selector_group(&tts, 0).unwrap();
    assert_eq!(group.clone(), group);
    assert_eq!(group.0[0].clone(), group.0[0]);
    assert_eq!(group.0[0].0[0].clone(), group.0[0].0[0]);
    let tts = lexer(".m(@a: 1, b, @c...) when (d) { e: f }").unwrap();
    let (declaration, _) = less::parser::mixin::mixin_declaration(&tts, 0).unwrap();
    assert_eq!(declaration.clone(), declaration);
    assert_eq!(declaration.block.clone(), declaration.block);
    let tts = lexer("@a: 1, b, @c...").unwrap();
    let (arguments, _) = less::parser::mixin::mixin_arguments(&tts, 0).unwrap();
    assert_eq!(arguments.len(), 3);
    assert_eq!(arguments.clone(), arguments);
    let token = less::tokenizer::Token::Dimension { value: "1".into(), is_integer: true, unit: "px".into() };
    assert_eq!(token.clone(), token);
}
