use less::ast::expression::{
    Expression, GuardedBlock, MixinCallArgument, MixinCallExpression, MixinDeclaration,
    MixinDeclarationArgument,
};
use less::ast::selector::SimpleSelector;
use less::ast::ListOfItems;
use less::lexer::{lexer, Number, Span, Spanned, TokenTree};
use less::parser::mixin::{
    mixin_arguments, mixin_call_arguments, mixin_call_item, mixin_declaration,
    mixin_declaration_arguments, to_semicolon_separated, FoldError, MixinArgument,
};
use less::parser::{ErrorKind, ParseError};

/// What of `input` stands from the tree of index `pos` on.
fn rest<'a>(input: &'a str, tts: &[Spanned<TokenTree>], pos: usize) -> &'a str {
    if pos < tts.len() {
        &input[tts[pos].1.start..]
    } else {
        ""
    }
}

fn declaration_arguments(input: &str) -> Result<(&str, Vec<MixinDeclarationArgument>), ParseError> {
    let tts = lexer(input).unwrap();
    let (arguments, end) = mixin_declaration_arguments(&tts, 0)?;
    Ok((rest(input, &tts, end), arguments))
}

fn call_arguments(input: &str) -> Result<(&str, Vec<MixinCallArgument>), ParseError> {
    let tts = lexer(input).unwrap();
    let (arguments, end) = mixin_call_arguments(&tts, 0)?;
    Ok((rest(input, &tts, end), arguments))
}

fn declaration(input: &str) -> Result<(&str, MixinDeclaration), ParseError> {
    let tts = lexer(input).unwrap();
    let (found, end) = mixin_declaration(&tts, 0)?;
    Ok((rest(input, &tts, end), found))
}

fn ident(name: &str) -> Expression {
    Expression::Ident(name.to_string())
}

fn numeric(integer: &str, unit: Option<&str>) -> Expression {
    Expression::Numeric(
        Number {
            negative: false,
            integer: integer.to_string(),
            fraction: String::new(),
            exponent_negative: false,
            exponent: String::new(),
        },
        unit.map(|unit| unit.to_string()),
    )
}

fn error(kind: ErrorKind, start: usize, end: usize) -> ParseError {
    ParseError { kind, span: Span::new(start, end), secondary: None }
}

#[test]
fn test_mixin_declaration_arguments() {
    // Single values
    assert_eq!(
        declaration_arguments("@color"),
        Ok(("", vec![MixinDeclarationArgument::Variable { name: "color".into(), default: None }]))
    );
    assert_eq!(
        declaration_arguments("@color: blue"),
        Ok((
            "",
            vec![MixinDeclarationArgument::Variable {
                name: "color".into(),
                default: Some(Expression::SpaceList(vec![ident("blue")])),
            }]
        ))
    );
    assert_eq!(
        declaration_arguments("blue"),
        Ok((
            "",
            vec![MixinDeclarationArgument::Literal {
                value: Expression::SpaceList(vec![ident("blue")])
            }]
        ))
    );
    assert_eq!(
        declaration_arguments("..."),
        Ok(("", vec![MixinDeclarationArgument::Variadic { name: None }]))
    );
    assert_eq!(
        declaration_arguments("@rest..."),
        Ok(("", vec![MixinDeclarationArgument::Variadic { name: Some("rest".into()) }]))
    );

    // Comma separated values
    assert_eq!(
        declaration_arguments("@width, @height"),
        Ok((
            "",
            vec![
                MixinDeclarationArgument::Variable { name: "width".into(), default: None },
                MixinDeclarationArgument::Variable { name: "height".into(), default: None },
            ]
        ))
    );
    assert_eq!(
        declaration_arguments("@width: 50px, @height: @global-height, @rest..."),
        Ok((
            "",
            vec![
                MixinDeclarationArgument::Variable {
                    name: "width".into(),
                    default: Some(Expression::SpaceList(vec![numeric("50", Some("px"))])),
                },
                MixinDeclarationArgument::Variable {
                    name: "height".into(),
                    default: Some(Expression::SpaceList(vec![Expression::Variable(
                        "global-height".into()
                    )])),
                },
                MixinDeclarationArgument::Variadic { name: Some("rest".into()) }
            ]
        ))
    );
    assert_eq!(
        declaration_arguments("@colors: red, green, blue"),
        Ok((
            "",
            vec![
                MixinDeclarationArgument::Variable {
                    name: "colors".into(),
                    default: Some(Expression::SpaceList(vec![ident("red")])),
                },
                MixinDeclarationArgument::Literal {
                    value: Expression::SpaceList(vec![ident("green")]),
                },
                MixinDeclarationArgument::Literal {
                    value: Expression::SpaceList(vec![ident("blue")]),
                }
            ]
        ))
    );

    // Semicolon separated values
    assert_eq!(
        declaration_arguments("@colors: red, green, blue;"),
        Ok((
            "",
            vec![MixinDeclarationArgument::Variable {
                name: "colors".into(),
                default: Some(Expression::CommaList(vec![
                    Expression::SpaceList(vec![ident("red")]),
                    Expression::SpaceList(vec![ident("green")]),
                    Expression::SpaceList(vec![ident("blue")]),
                ])),
            },]
        ))
    );
}

fn no_block() -> GuardedBlock {
    GuardedBlock { guard: None, items: ListOfItems(vec![]) }
}

#[test]
fn test_mixin_declaration() {
    assert_eq!(
        declaration("#lib() { }"),
        Ok((
            "",
            MixinDeclaration {
                selector: SimpleSelector::Id("lib".into()),
                arguments: vec![],
                block: no_block(),
            },
        ))
    );
    assert_eq!(
        declaration(".test () { }"),
        Ok((
            "",
            MixinDeclaration {
                selector: SimpleSelector::Class("test".into()),
                arguments: vec![],
                block: no_block(),
            },
        ))
    );
    assert_eq!(
        declaration(".guarded() when (true) { }"),
        Ok((
            "",
            MixinDeclaration {
                selector: SimpleSelector::Class("guarded".into()),
                arguments: vec![],
                block: GuardedBlock { guard: Some(ident("true")), items: ListOfItems(vec![]) },
            },
        ))
    );
    assert_eq!(
        declaration(".test(@color: blue) { }"),
        Ok((
            "",
            MixinDeclaration {
                selector: SimpleSelector::Class("test".into()),
                arguments: vec![MixinDeclarationArgument::Variable {
                    name: "color".into(),
                    default: Some(Expression::SpaceList(vec![ident("blue")]))
                }],
                block: no_block(),
            },
        ))
    );
}

#[test]
fn a_semicolon_makes_one_argument_of_those_before_it() {
    assert_eq!(
        declaration_arguments("red, green; @b: 1, 2; blue"),
        Ok((
            "",
            vec![
                MixinDeclarationArgument::Literal {
                    value: Expression::CommaList(vec![
                        Expression::SpaceList(vec![ident("red")]),
                        Expression::SpaceList(vec![ident("green")]),
                    ])
                },
                MixinDeclarationArgument::Variable {
                    name: "b".into(),
                    default: Some(Expression::CommaList(vec![
                        Expression::SpaceList(vec![numeric("1", None)]),
                        Expression::SpaceList(vec![numeric("2", None)]),
                    ]))
                },
                MixinDeclarationArgument::Literal {
                    value: Expression::CommaList(vec![Expression::SpaceList(vec![ident("blue")])])
                },
            ]
        ))
    );
    // A name alone keeps no value.
    assert_eq!(
        declaration_arguments("@a;"),
        Ok(("", vec![MixinDeclarationArgument::Variable { name: "a".into(), default: None }]))
    );
}

#[test]
fn to_semicolon_separated_joins_values() {
    let literal = |name: &str| MixinArgument::Literal { value: ident(name) };
    assert_eq!(
        to_semicolon_separated(vec![literal("a"), literal("b")]),
        Ok(MixinArgument::Literal { value: Expression::CommaList(vec![ident("a"), ident("b")]) })
    );
    assert_eq!(
        to_semicolon_separated(vec![literal("a")]),
        Ok(MixinArgument::Literal { value: Expression::CommaList(vec![ident("a")]) })
    );
    assert_eq!(
        to_semicolon_separated(vec![
            MixinArgument::Variable { name: "x".into(), value: None },
            literal("b")
        ]),
        Ok(MixinArgument::Variable {
            name: "x".into(),
            value: Some(Expression::CommaList(vec![ident("b")]))
        })
    );
    assert_eq!(
        to_semicolon_separated(vec![
            MixinArgument::Variable { name: "x".into(), value: Some(ident("a")) },
            literal("b")
        ]),
        Ok(MixinArgument::Variable {
            name: "x".into(),
            value: Some(Expression::CommaList(vec![ident("a"), ident("b")]))
        })
    );
    assert_eq!(
        to_semicolon_separated(vec![MixinArgument::Variable { name: "x".into(), value: None }]),
        Ok(MixinArgument::Variable { name: "x".into(), value: None })
    );
}

#[test]
fn to_semicolon_separated_names_the_fault() {
    let literal = |name: &str| MixinArgument::Literal { value: ident(name) };
    let named = |name: &str| MixinArgument::Variable { name: name.into(), value: None };
    let variadic = || MixinArgument::Variadic { name: None };
    assert_eq!(to_semicolon_separated(vec![]), Err(FoldError::NoArguments));
    // Only the first may have a name.
    assert_eq!(
        to_semicolon_separated(vec![literal("a"), named("x")]),
        Err(FoldError::MixedSeparators)
    );
    assert_eq!(
        to_semicolon_separated(vec![named("x"), named("y")]),
        Err(FoldError::MixedSeparators)
    );
    // The rest of the arguments cannot be joined.
    assert_eq!(to_semicolon_separated(vec![variadic()]), Err(FoldError::VariadicNotLast));
    assert_eq!(
        to_semicolon_separated(vec![literal("a"), variadic()]),
        Err(FoldError::VariadicNotLast)
    );
    assert_eq!(
        to_semicolon_separated(vec![
            MixinArgument::Variadic { name: Some("rest".into()) },
            named("x")
        ]),
        Err(FoldError::VariadicNotLast)
    );
    // The first fault decides.
    assert_eq!(
        to_semicolon_separated(vec![literal("a"), named("x"), variadic()]),
        Err(FoldError::MixedSeparators)
    );
    assert_eq!(
        to_semicolon_separated(vec![literal("a"), variadic(), named("x")]),
        Err(FoldError::VariadicNotLast)
    );
    assert_eq!(
        FoldError::VariadicNotLast.description(),
        "Variadic arguments must be the last argument"
    );
    assert_eq!(
        FoldError::MixedSeparators.description(),
        "Cannot mix comma-separated and semicolon-separated arguments"
    );
    assert_eq!(FoldError::NoArguments.description(), "No arguments provided");
}

#[test]
fn arguments_of_a_call() {
    assert_eq!(
        call_arguments("@a: 1, @b, c"),
        Ok((
            "",
            vec![
                MixinCallArgument {
                    name: Some("a".into()),
                    value: Expression::SpaceList(vec![numeric("1", None)])
                },
                MixinCallArgument { name: None, value: Expression::Variable("b".into()) },
                MixinCallArgument { name: None, value: Expression::SpaceList(vec![ident("c")]) },
            ]
        ))
    );
    // `...` cannot stand in a call.
    assert_eq!(call_arguments("a, @rest..."), Err(error(ErrorKind::UnexpectedToken, 0, 11)));
}

#[test]
fn errors_of_arguments() {
    assert_eq!(declaration_arguments("a, , b"), Err(error(ErrorKind::EmptyArgument, 3, 4)));
    assert_eq!(declaration_arguments("a, "), Err(error(ErrorKind::EmptyArgument, 3, 3)));
    assert_eq!(declaration_arguments("a;; b"), Err(error(ErrorKind::EmptyArgument, 2, 3)));
    assert_eq!(declaration_arguments("@a: , b"), Err(error(ErrorKind::EmptyArgument, 4, 5)));
    // The rest of the arguments stands last.
    assert_eq!(
        mixin_declaration(&lexer(".m(@rest..., a) { }").unwrap(), 0),
        Err(error(ErrorKind::EmptyArgument, 11, 12))
    );
    assert_eq!(
        mixin_declaration(&lexer(".m(... a) { }").unwrap(), 0),
        Err(error(ErrorKind::UnexpectedToken, 7, 8))
    );
    // Arguments with names cannot be joined by a `;`.
    assert_eq!(declaration_arguments("a, @b: 1; c"), Err(error(ErrorKind::UnexpectedToken, 8, 9)));
    // What is left in the parentheses of a definition.
    assert_eq!(
        mixin_declaration(&lexer(".m(, a) { }").unwrap(), 0),
        Err(error(ErrorKind::EmptyArgument, 3, 4))
    );
    assert_eq!(
        mixin_declaration(&lexer(".m(a :) { }").unwrap(), 0),
        Err(error(ErrorKind::UnexpectedToken, 5, 6))
    );
    assert_eq!(
        mixin_declaration(&lexer(".m() when (a) b { }").unwrap(), 0),
        Err(error(ErrorKind::UnexpectedToken, 14, 15))
    );
}

#[test]
fn arguments_as_written() {
    let tts = lexer("@a: 1").unwrap();
    assert_eq!(
        mixin_arguments(&tts, 0),
        Ok((
            vec![MixinArgument::Variable {
                name: "a".into(),
                value: Some(Expression::SpaceList(vec![numeric("1", None)]))
            }],
            tts.len()
        ))
    );
}

#[test]
fn a_mixin_call_item_ends_with_a_semicolon() {
    let input = ".a.b(1); x";
    let tts = lexer(input).unwrap();
    let found = mixin_call_item(&tts, 0).map(|(call, end)| (rest(input, &tts, end), call));
    assert_eq!(
        found,
        Ok((
            "x",
            MixinCallExpression {
                selector: vec![SimpleSelector::Class("a".into()), SimpleSelector::Class("b".into())],
                arguments: vec![MixinCallArgument {
                    name: None,
                    value: Expression::SpaceList(vec![numeric("1", None)])
                }]
            }
        ))
    );
    let tts = lexer(".a(1) x").unwrap();
    assert_eq!(mixin_call_item(&tts, 0), Err(error(ErrorKind::ExpectedSemicolon, 6, 7)));
}
