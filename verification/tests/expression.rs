use less::ast::expression::{
    BinaryOperator, Expression, InterpolatedValue, Lookup, MixinCallArgument, MixinCallExpression,
};
use less::ast::selector::SimpleSelector;
use less::ast::{AtRule, GenericAtRule, Item, ListOfComponentValues, ListOfItems};
use less::lexer::{lexer, Number, Span, Spanned, Token, TokenTree};
use less::parser::expression::{
    at_keyword, boolean_expression, comma_separated_arg_value, declaration_value, function_args,
    lookup_key, semicolon_separated_arg_value, simple, variable_declaration_value,
    variable_or_lookup,
};
use less::parser::{ErrorKind, ParseError};

type Parser = fn(&[Spanned<TokenTree>], usize) -> Result<(Expression, usize), ParseError>;

/// What of `input` stands from the tree of index `pos` on.
fn rest<'a>(input: &'a str, tts: &[Spanned<TokenTree>], pos: usize) -> &'a str {
    if pos < tts.len() {
        &input[tts[pos].1.start..]
    } else {
        ""
    }
}

/// Runs `parser` on the token trees of `input`: the rest of `input` and the
/// value.
fn run(parser: Parser, input: &str) -> Result<(&str, Expression), ParseError> {
    let tts = lexer(input).unwrap();
    let (value, end) = parser(&tts, 0)?;
    Ok((rest(input, &tts, end), value))
}

/// The value of a numeric literal as a 32-bit float.
fn value(number: &Number) -> f32 {
    fn digits(text: &str) -> u32 {
        if text.is_empty() {
            0
        } else {
            text.parse().unwrap()
        }
    }
    let s: i32 = if number.negative { -1 } else { 1 };
    let i = digits(&number.integer);
    let f = digits(&number.fraction);
    let d = number.fraction.len() as u32;
    let t: i32 = if number.exponent_negative { -1 } else { 1 };
    let e = digits(&number.exponent);
    s as f32 * (i as f32 + f as f32 * 10f32.powi(-(d as i32))) * 10f32.powi(t * e as i32)
}

/// The literal with the integer digits `integer` and the fractional digits
/// `fraction`.
fn number(integer: &str, fraction: &str) -> Number {
    Number {
        negative: false,
        integer: integer.to_string(),
        fraction: fraction.to_string(),
        exponent_negative: false,
        exponent: String::new(),
    }
}

fn numeric(integer: &str, unit: Option<&str>) -> Expression {
    Expression::Numeric(number(integer, ""), unit.map(|unit| unit.to_string()))
}

fn ident(name: &str) -> Expression {
    Expression::Ident(name.to_string())
}

fn variable(name: &str) -> Expression {
    Expression::Variable(name.to_string())
}

fn binary(operator: BinaryOperator, left: Expression, right: Expression) -> Expression {
    Expression::BinaryOperation(operator, Box::new(left), Box::new(right))
}

fn numeric_parts(input: &str) -> Result<(&str, (f32, Option<String>)), ParseError> {
    match run(simple, input)? {
        (rest, Expression::Numeric(number, unit)) => Ok((rest, (value(&number), unit))),
        other => panic!("not a number: {:?}", other),
    }
}

#[test]
fn test_at_keyword() {
    let cases = vec![("@name", Some(("", "name"))), ("@name rest", Some(("rest", "name")))];

    for (input, expected) in cases {
        let tts = lexer(input).unwrap();
        let found = at_keyword(&tts, 0);
        let found = found.as_ref().map(|(name, end)| (rest(input, &tts, *end), name.as_str()));
        assert_eq!(found, expected);
    }
}

#[test]
fn test_numeric() {
    let cases = vec![
        ("42", Ok(("", (42_f32, None)))),
        ("42%", Ok(("", (42_f32, Some("%".into()))))),
        ("42px", Ok(("", (42_f32, Some("px".into()))))),
    ];

    for (input, expected) in cases {
        assert_eq!(numeric_parts(input), expected);
    }
}

#[test]
fn tests_test_number() {
    let cases = vec![
        ("1", Ok(("", 1_f32))),
        ("-1", Ok(("", -1_f32))),
        ("3.141", Ok(("", 3.141_f32))),
        ("1.5e2", Ok(("", 150_f32))),
        (".707", Ok(("", 0.707_f32))),
    ];

    for (input, expected) in cases {
        assert_eq!(numeric_parts(input).map(|(rest, (value, _))| (rest, value)), expected);
    }
}

#[test]
fn test_boolean_expression() {
    assert_eq!(run(boolean_expression, "true"), Ok(("", ident("true"))));
    assert_eq!(run(boolean_expression, "@is-blue"), Ok(("", variable("is-blue"))));
    assert_eq!(
        run(boolean_expression, "@color = blue"),
        Ok(("", binary(BinaryOperator::Equality, variable("color"), ident("blue"))))
    );
    assert_eq!(
        run(boolean_expression, "@color = blue and @has-border"),
        Ok((
            "",
            binary(
                BinaryOperator::And,
                binary(BinaryOperator::Equality, variable("color"), ident("blue")),
                variable("has-border"),
            )
        ))
    );
    assert_eq!(
        run(boolean_expression, "(@color = blue) and @has-border"),
        Ok((
            "",
            binary(
                BinaryOperator::And,
                binary(BinaryOperator::Equality, variable("color"), ident("blue")),
                variable("has-border"),
            )
        ))
    );
    // A lookup follows a variable only: behind the selector of a mixin must
    // stand the parentheses of a call.
    assert_eq!(
        run(boolean_expression, "#lib.colors[@primary] = blue"),
        Err(ParseError {
            kind: ErrorKind::UnexpectedToken,
            span: Span::new(0, 4),
            secondary: None
        })
    );
}

#[test]
fn expression_test_function_call() {
    let cases = vec![
        (
            "rgba(255, 0, 255)",
            Ok((
                "",
                Expression::FunctionCall(
                    "rgba".into(),
                    Expression::SemicolonList(vec![Expression::CommaList(vec![
                        Expression::SpaceList(vec![numeric("255", None)]),
                        Expression::SpaceList(vec![numeric("0", None)]),
                        Expression::SpaceList(vec![numeric("255", None)]),
                    ])])
                    .into(),
                ),
            )),
        ),
        (
            "repeating-linear-gradient(gold 15%, orange 30%)",
            Ok((
                "",
                Expression::FunctionCall(
                    "repeating-linear-gradient".into(),
                    Expression::SemicolonList(vec![Expression::CommaList(vec![
                        Expression::SpaceList(vec![ident("gold"), numeric("15", Some("%"))]),
                        Expression::SpaceList(vec![ident("orange"), numeric("30", Some("%"))]),
                    ])])
                    .into(),
                ),
            )),
        ),
    ];

    for (input, expected) in cases {
        assert_eq!(run(simple, input), expected);
    }
}

#[test]
fn expression_test_variable_or_lookup() {
    let cases = vec![
        ("@var", Ok(("", variable("var")))),
        ("@last[]", Ok(("", Expression::VariableLookup("last".into(), vec![Lookup::Last])))),
        (
            "@mult[][]",
            Ok(("", Expression::VariableLookup("mult".into(), vec![Lookup::Last, Lookup::Last]))),
        ),
    ];

    for (input, expected) in cases {
        assert_eq!(run(variable_or_lookup, input), expected);
    }
}

#[test]
fn expression_test_lookup() {
    let cases = vec![
        ("[]", Ok(Lookup::Last)),
        ("[ident]", Ok(Lookup::Ident("ident".into()))),
        ("[@variable]", Ok(Lookup::Variable("variable".into()))),
        ("[$property]", Ok(Lookup::Property("property".into()))),
        ("[@@variable]", Ok(Lookup::VariableVariable("variable".into()))),
        ("[$@property]", Ok(Lookup::VariableProperty("property".into()))),
    ];

    for (input, expected) in cases {
        let tts = lexer(input).unwrap();
        assert_eq!(tts.len(), 1);
        match &tts[0].0 {
            TokenTree::Tree(_, content) => assert_eq!(lookup_key(content), expected),
            other => panic!("not a group: {:?}", other),
        }
    }
}

#[test]
fn expression_test_variable() {
    let cases = vec![("@var", Ok(("", variable("var"))))];

    for (input, expected) in cases {
        assert_eq!(run(simple, input), expected);
    }
}

#[test]
fn expression_test_property() {
    let cases = vec![("$color", Ok(("", Expression::Property("color".into()))))];

    for (input, expected) in cases {
        assert_eq!(run(simple, input), expected);
    }
}

#[test]
fn test_sub_expression() {
    assert_eq!(
        run(declaration_value, "(3 * 1)"),
        Ok((
            "",
            Expression::CommaList(vec![Expression::SpaceList(vec![binary(
                BinaryOperator::Multiply,
                numeric("3", None),
                numeric("1", None),
            )])]),
        ))
    );
    assert_eq!(
        run(declaration_value, "2 - (3 * 1)"),
        Ok((
            "",
            Expression::CommaList(vec![Expression::SpaceList(vec![binary(
                BinaryOperator::Subtract,
                numeric("2", None),
                binary(BinaryOperator::Multiply, numeric("3", None), numeric("1", None)),
            )])]),
        ))
    );
}

#[test]
fn test_declaration_value() {
    assert_eq!(
        run(declaration_value, "0 * 0 + 0 / 0"),
        Ok((
            "",
            Expression::CommaList(vec![Expression::SpaceList(vec![binary(
                BinaryOperator::Add,
                binary(BinaryOperator::Multiply, numeric("0", None), numeric("0", None)),
                binary(BinaryOperator::Divide, numeric("0", None), numeric("0", None)),
            )])])
        ))
    );
    assert_eq!(
        run(declaration_value, "blue"),
        Ok(("", Expression::CommaList(vec![Expression::SpaceList(vec![ident("blue")])])))
    );
    assert_eq!(
        run(declaration_value, "5px solid red"),
        Ok((
            "",
            Expression::CommaList(vec![Expression::SpaceList(vec![
                numeric("5", Some("px")),
                ident("solid"),
                ident("red"),
            ])])
        ))
    );
    assert_eq!(
        run(declaration_value, "@primary"),
        Ok(("", Expression::CommaList(vec![Expression::SpaceList(vec![variable("primary")])])))
    );
    assert_eq!(
        run(declaration_value, "@colors[primary]"),
        Ok((
            "",
            Expression::CommaList(vec![Expression::SpaceList(vec![Expression::VariableLookup(
                "colors".into(),
                vec![Lookup::Ident("primary".into())]
            )])])
        ))
    );
    assert_eq!(
        run(declaration_value, "$color"),
        Ok((
            "",
            Expression::CommaList(vec![Expression::SpaceList(vec![Expression::Property(
                "color".into()
            )])])
        ))
    );
    assert_eq!(
        run(declaration_value, "rgba(0, 0, 0, 0.5)"),
        Ok((
            "",
            Expression::CommaList(vec![Expression::SpaceList(vec![Expression::FunctionCall(
                "rgba".into(),
                Expression::SemicolonList(vec![Expression::CommaList(vec![
                    Expression::SpaceList(vec![numeric("0", None)]),
                    Expression::SpaceList(vec![numeric("0", None)]),
                    Expression::SpaceList(vec![numeric("0", None)]),
                    Expression::SpaceList(vec![Expression::Numeric(number("0", "5"), None)]),
                ])])
                .into()
            )])])
        ))
    );
    assert_eq!(value(&number("0", "5")), 0.5);
    assert_eq!(
        run(declaration_value, "\"test\""),
        Ok((
            "",
            Expression::CommaList(vec![Expression::SpaceList(vec![Expression::QuotedString(
                "test".into()
            )])])
        ))
    );
    assert_eq!(
        run(declaration_value, "\"color is @{color}\""),
        Ok((
            "",
            Expression::CommaList(vec![Expression::SpaceList(vec![
                Expression::InterpolatedString(
                    vec!["color is ".into(), "".into()],
                    vec![InterpolatedValue::Variable("color".into())]
                )
            ])])
        ))
    );
    assert_eq!(
        run(declaration_value, "\"color is ${color}\""),
        Ok((
            "",
            Expression::CommaList(vec![Expression::SpaceList(vec![
                Expression::InterpolatedString(
                    vec!["color is ".into(), "".into()],
                    vec![InterpolatedValue::Property("color".into())]
                )
            ])])
        ))
    );
}

#[test]
fn string_test_string() {
    let cases = vec![
        // Quoted strings
        ("'test'", Ok(("", Expression::QuotedString("test".into())))),
        // Interpolated strings
        (
            "'a @{b}'",
            Ok((
                "",
                Expression::InterpolatedString(
                    vec!["a ".into(), "".into()],
                    vec![InterpolatedValue::Variable("b".into())],
                ),
            )),
        ),
        (
            "'${a} b'",
            Ok((
                "",
                Expression::InterpolatedString(
                    vec!["".into(), " b".into()],
                    vec![InterpolatedValue::Property("a".into())],
                ),
            )),
        ),
    ];

    for (input, expected) in cases {
        assert_eq!(run(simple, input), expected);
    }
}

fn error(kind: ErrorKind, start: usize, end: usize) -> ParseError {
    ParseError { kind, span: Span::new(start, end), secondary: None }
}

#[test]
fn operators_bind_by_precedence_and_from_the_left() {
    assert_eq!(
        run(boolean_expression, "1 - 2 - 3"),
        Ok((
            "",
            binary(
                BinaryOperator::Subtract,
                binary(BinaryOperator::Subtract, numeric("1", None), numeric("2", None)),
                numeric("3", None)
            )
        ))
    );
    assert_eq!(
        run(boolean_expression, "@a <= 1 or @b >= 2 and @c < 3"),
        Ok((
            "",
            binary(
                BinaryOperator::And,
                binary(
                    BinaryOperator::Or,
                    binary(BinaryOperator::LessThanOrEqualTo, variable("a"), numeric("1", None)),
                    binary(BinaryOperator::GreaterThanOrEqualTo, variable("b"), numeric("2", None)),
                ),
                binary(BinaryOperator::LessThan, variable("c"), numeric("3", None)),
            )
        ))
    );
    assert_eq!(
        run(boolean_expression, "@a > 1"),
        Ok(("", binary(BinaryOperator::GreaterThan, variable("a"), numeric("1", None))))
    );
}

#[test]
fn a_value_stops_where_no_value_goes_on() {
    assert_eq!(
        run(declaration_value, "a b; c"),
        Ok(("; c", Expression::CommaList(vec![Expression::SpaceList(vec![ident("a"), ident("b")])])))
    );
    assert_eq!(
        run(comma_separated_arg_value, "a b, c"),
        Ok((", c", Expression::SpaceList(vec![ident("a"), ident("b")])))
    );
    assert_eq!(
        run(semicolon_separated_arg_value, "  a, b"),
        Ok((
            "",
            Expression::CommaList(vec![
                Expression::SpaceList(vec![ident("a")]),
                Expression::SpaceList(vec![ident("b")])
            ])
        ))
    );
}

#[test]
fn function_args_take_semicolons_and_rulesets() {
    assert_eq!(
        run(function_args, "a, b; { @x; }"),
        Ok((
            "",
            Expression::SemicolonList(vec![
                Expression::CommaList(vec![
                    Expression::SpaceList(vec![ident("a")]),
                    Expression::SpaceList(vec![ident("b")]),
                ]),
                Expression::CommaList(vec![Expression::DetachedRuleset(ListOfItems(vec![(
                    Item::AtRule(AtRule::Generic(GenericAtRule {
                        name: "x".into(),
                        prelude: ListOfComponentValues(vec![]),
                        block: None
                    })),
                    Span::new(8, 11)
                )]))]),
            ])
        ))
    );
}

#[test]
fn variable_declaration_value_takes_a_ruleset() {
    assert_eq!(
        run(variable_declaration_value, "{ } "),
        Ok(("", Expression::DetachedRuleset(ListOfItems(vec![]))))
    );
    assert_eq!(
        run(variable_declaration_value, "1, 2"),
        Ok((
            "",
            Expression::CommaList(vec![
                Expression::SpaceList(vec![numeric("1", None)]),
                Expression::SpaceList(vec![numeric("2", None)])
            ])
        ))
    );
}

#[test]
fn mixin_call_is_a_value() {
    assert_eq!(
        run(simple, "#ns > .mixin(@a: 1; red) x"),
        Ok((
            "x",
            Expression::MixinCall(
                MixinCallExpression {
                    selector: vec![
                        SimpleSelector::Id("ns".into()),
                        SimpleSelector::Class("mixin".into())
                    ],
                    arguments: vec![
                        MixinCallArgument {
                            name: Some("a".into()),
                            value: Expression::CommaList(vec![Expression::SpaceList(vec![
                                numeric("1", None)
                            ])])
                        },
                        MixinCallArgument {
                            name: None,
                            value: Expression::CommaList(vec![Expression::SpaceList(vec![ident(
                                "red"
                            )])])
                        },
                    ],
                },
                vec![]
            )
        ))
    );
}

#[test]
fn errors_of_values() {
    // Nothing where a value must stand.
    assert_eq!(run(declaration_value, ""), Err(error(ErrorKind::EmptyExpression, 0, 0)));
    assert_eq!(run(simple, "()"), Err(error(ErrorKind::EmptyExpression, 0, 2)));
    assert_eq!(run(simple, "rgb( )"), Err(error(ErrorKind::EmptyExpression, 3, 6)));
    // An operator without its right operand.
    assert_eq!(run(declaration_value, "1 + "), Err(error(ErrorKind::InvalidOperator, 2, 3)));
    assert_eq!(run(declaration_value, "(1 *)"), Err(error(ErrorKind::InvalidOperator, 3, 4)));
    // A separator without its value.
    assert_eq!(run(declaration_value, "a, "), Err(error(ErrorKind::EmptyArgument, 3, 3)));
    assert_eq!(run(simple, "f(a,, b)"), Err(error(ErrorKind::EmptyArgument, 4, 5)));
    assert_eq!(run(simple, "f(a; )"), Err(error(ErrorKind::EmptyArgument, 5, 5)));
    // What cannot stand in a value.
    assert_eq!(run(simple, "(1 2)"), Err(error(ErrorKind::UnexpectedToken, 3, 4)));
    assert_eq!(run(simple, ": a"), Err(error(ErrorKind::UnexpectedToken, 0, 1)));
    // A lookup with more than a key in it.
    assert_eq!(run(simple, "@a[b c]"), Err(error(ErrorKind::UnbalancedLookup, 5, 6)));
    assert_eq!(run(simple, "@a[1]"), Err(error(ErrorKind::UnbalancedLookup, 3, 4)));
    // An interpolation that is not closed.
    assert_eq!(
        run(simple, "\"a @{b c\""),
        Err(error(ErrorKind::UnterminatedInterpolation, 3, 4))
    );
    assert_eq!(run(simple, "'${'"), Err(error(ErrorKind::UnterminatedInterpolation, 1, 2)));
    assert_eq!(run(simple, "'@{1}'"), Err(error(ErrorKind::UnexpectedToken, 3, 4)));
}

#[test]
fn an_escaped_string_is_a_string() {
    assert_eq!(run(simple, "~\"a\" b"), Ok(("b", Expression::QuotedString("a".into()))));
}

#[test]
fn value_of_a_number_with_exponent() {
    let tts = lexer("-12.5e-1").unwrap();
    match &tts[0].0 {
        TokenTree::Token(Token::Number(n)) => {
            assert_eq!(
                *n,
                Number {
                    negative: true,
                    integer: "12".into(),
                    fraction: "5".into(),
                    exponent_negative: true,
                    exponent: "1".into()
                }
            );
            assert_eq!(value(n), -1.25);
        }
        other => panic!("not a number: {:?}", other),
    }
}

#[test]
fn value_test_function_call() {
    let cases = vec![
        (
            "rgba(255, 0, 255)",
            Ok((
                "",
                Expression::FunctionCall(
                    "rgba".into(),
                    Expression::SemicolonList(vec![Expression::CommaList(vec![
                        Expression::SpaceList(vec![numeric("255", None)]),
                        Expression::SpaceList(vec![numeric("0", None)]),
                        Expression::SpaceList(vec![numeric("255", None)]),
                    ])])
                    .into(),
                ),
            )),
        ),
        (
            "repeating-linear-gradient(gold 15%, orange 30%)",
            Ok((
                "",
                Expression::FunctionCall(
                    "repeating-linear-gradient".into(),
                    Expression::SemicolonList(vec![Expression::CommaList(vec![
                        Expression::SpaceList(vec![ident("gold"), numeric("15", Some("%"))]),
                        Expression::SpaceList(vec![ident("orange"), numeric("30", Some("%"))]),
                    ])])
                    .into(),
                ),
            )),
        ),
    ];

    for (input, expected) in cases {
        assert_eq!(run(simple, input), expected);
    }
}


#[test]
fn value_test_variable_or_lookup() {
    let cases = vec![
        ("@var", Ok(("", variable("var")))),
        ("@last[]", Ok(("", Expression::VariableLookup("last".into(), vec![Lookup::Last])))),
        (
            "@mult[][]",
            Ok(("", Expression::VariableLookup("mult".into(), vec![Lookup::Last, Lookup::Last]))),
        ),
    ];

    for (input, expected) in cases {
        assert_eq!(run(variable_or_lookup, input), expected);
    }
}


#[test]
fn value_test_lookup() {
    let cases = vec![
        ("[]", Ok(Lookup::Last)),
        ("[ident]", Ok(Lookup::Ident("ident".into()))),
        ("[@variable]", Ok(Lookup::Variable("variable".into()))),
        ("[$property]", Ok(Lookup::Property("property".into()))),
        ("[@@variable]", Ok(Lookup::VariableVariable("variable".into()))),
        ("[$@property]", Ok(Lookup::VariableProperty("property".into()))),
    ];

    for (input, expected) in cases {
        let tts = lexer(input).unwrap();
        assert_eq!(tts.len(), 1);
        match &tts[0].0 {
            TokenTree::Tree(_, content) => assert_eq!(lookup_key(content), expected),
            other => panic!("not a group: {:?}", other),
        }
    }
}


#[test]
fn value_test_variable() {
    let cases = vec![("@var", Ok(("", variable("var"))))];

    for (input, expected) in cases {
        assert_eq!(run(simple, input), expected);
    }
}


#[test]
fn value_test_property() {
    let cases = vec![("$color", Ok(("", Expression::Property("color".into()))))];

    for (input, expected) in cases {
        assert_eq!(run(simple, input), expected);
    }
}


#[test]
fn a_variable_needs_its_sign_and_its_name() {
    let unexpected = |start: usize, end: usize| ParseError {
        kind: ErrorKind::UnexpectedToken,
        span: Span { start, end },
        secondary: None,
    };
    assert_eq!(run(variable_or_lookup, "var"), Err(unexpected(0, 3)));
    assert_eq!(run(variable_or_lookup, "@ var"), Err(unexpected(0, 1)));
    assert_eq!(run(variable_or_lookup, "@"), Err(unexpected(0, 1)));
    assert_eq!(run(variable_or_lookup, ""), Err(unexpected(0, 0)));
    let tts = lexer("a @b").unwrap();
    assert_eq!(variable_or_lookup(&tts, 9), Err(unexpected(4, 4)));
    assert_eq!(variable_or_lookup(&tts, 2), Ok((Expression::Variable("b".into()), 4)));
}
