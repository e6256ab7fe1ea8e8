use less::ast::{
    AtRule, Call, Declaration, DeclarationName, FunctionCall, GenericAtRule, GenericRule, Item,
    ListOfComponentValues, ListOfItems, MixinCall, QualifiedRule, Stylesheet, VariableCall,
};
use less::lexer::{lexer, Span, Spanned, Token, TokenTree};
use less::parser::{parser, ParseError};

fn parse_items(input: &str) -> Result<Spanned<Stylesheet>, ParseError> {
    let tts = lexer(input).unwrap();
    parser(&tts)
}

fn tok(token: Token, start: usize, end: usize) -> Spanned<TokenTree> {
    (TokenTree::Token(token), Span::new(start, end))
}

#[test]
fn test_item_at_rule() {
    // Parse an at-rule with no prelude or block
    let input = "@foo;";
    assert_eq!(
        parse_items(input),
        Ok((
            Stylesheet {
                items: ListOfItems(vec![(
                    Item::AtRule(AtRule::Generic(GenericAtRule {
                        name: "foo".into(),
                        prelude: ListOfComponentValues(vec![]),
                        block: None,
                    })),
                    Span::new(0, 5)
                )])
            },
            Span::new(0, input.len())
        ))
    );

    // Parse an at-rule with a simple prelude and no block
    let input = "@foo bar;";
    assert_eq!(
        parse_items(input),
        Ok((
            Stylesheet {
                items: ListOfItems(vec![(
                    Item::AtRule(AtRule::Generic(GenericAtRule {
                        name: "foo".into(),
                        prelude: ListOfComponentValues(vec![tok(
                            Token::Ident("bar".into()),
                            5,
                            8
                        )]),
                        block: None,
                    })),
                    Span::new(0, 9)
                )])
            },
            Span::new(0, input.len())
        ))
    );

    // Parse an at-rule with a simple prelude and block
    let input = "@foo bar { @baz; }";
    assert_eq!(
        parse_items(input),
        Ok((
            Stylesheet {
                items: ListOfItems(vec![(
                    Item::AtRule(AtRule::Generic(GenericAtRule {
                        name: "foo".into(),
                        prelude: ListOfComponentValues(vec![tok(
                            Token::Ident("bar".into()),
                            5,
                            8
                        )]),
                        block: Some(ListOfItems(vec![(
                            Item::AtRule(AtRule::Generic(GenericAtRule {
                                name: "baz".into(),
                                prelude: ListOfComponentValues(vec![]),
                                block: None,
                            })),
                            Span::new(11, 16)
                        )])),
                    })),
                    Span::new(0, 18)
                )])
            },
            Span::new(0, input.len())
        ))
    );
}

#[test]
fn test_item_variable_declaration() {
    // Parse a variable declaration
    let input = "@foo: bar;";
    assert_eq!(
        parse_items(input),
        Ok((
            Stylesheet {
                items: ListOfItems(vec![(
                    Item::Declaration(Declaration {
                        name: DeclarationName::Variable("foo".into()),
                        value: ListOfComponentValues(vec![tok(Token::Ident("bar".into()), 6, 9)]),
                        important: false,
                    }),
                    Span::new(0, 10)
                )])
            },
            Span::new(0, input.len())
        ))
    );
}

#[test]
fn test_item_declaration() {
    // Parse a declaration
    let input = "foo: bar;";
    assert_eq!(
        parse_items(input),
        Ok((
            Stylesheet {
                items: ListOfItems(vec![(
                    Item::Declaration(Declaration {
                        name: DeclarationName::Ident("foo".into()),
                        value: ListOfComponentValues(vec![tok(Token::Ident("bar".into()), 5, 8)]),
                        important: false,
                    }),
                    Span::new(0, 9)
                )])
            },
            Span::new(0, input.len())
        ))
    );

    // Parse a declaration with important
    let input = "foo: bar !important;";
    assert_eq!(
        parse_items(input),
        Ok((
            Stylesheet {
                items: ListOfItems(vec![(
                    Item::Declaration(Declaration {
                        name: DeclarationName::Ident("foo".into()),
                        value: ListOfComponentValues(vec![tok(Token::Ident("bar".into()), 5, 8)]),
                        important: true,
                    }),
                    Span::new(0, 20)
                )])
            },
            Span::new(0, input.len())
        ))
    );
}

#[test]
fn test_item_qualified_rule() {
    // Parse a qualified rule
    let input = "foo { bar: baz; }";
    assert_eq!(
        parse_items(input),
        Ok((
            Stylesheet {
                items: ListOfItems(vec![(
                    Item::QualifiedRule(QualifiedRule::Generic(GenericRule {
                        prelude: ListOfComponentValues(vec![tok(
                            Token::Ident("foo".into()),
                            0,
                            3
                        )]),
                        block: ListOfItems(vec![(
                            Item::Declaration(Declaration {
                                name: DeclarationName::Ident("bar".into()),
                                value: ListOfComponentValues(vec![tok(
                                    Token::Ident("baz".into()),
                                    11,
                                    14
                                )]),
                                important: false,
                            }),
                            Span::new(6, 15)
                        )]),
                    })),
                    Span::new(0, 17)
                )])
            },
            Span::new(0, input.len())
        ))
    );
}

#[test]
fn test_item_call() {
    // Parse a mixin call
    let input = ".foo(@arg: blue);";
    assert_eq!(
        parse_items(input),
        Ok((
            Stylesheet {
                items: ListOfItems(vec![(
                    Item::Call(Call::Mixin(MixinCall {
                        selector: ListOfComponentValues(vec![
                            tok(Token::Symbol('.'), 0, 1),
                            tok(Token::Ident("foo".into()), 1, 4)
                        ]),
                        arguments: ListOfComponentValues(vec![
                            tok(Token::Symbol('@'), 5, 6),
                            tok(Token::Ident("arg".into()), 6, 9),
                            tok(Token::Symbol(':'), 9, 10),
                            tok(Token::Whitespace, 10, 11),
                            tok(Token::Ident("blue".into()), 11, 15),
                        ]),
                    })),
                    Span::new(0, 17)
                )])
            },
            Span::new(0, input.len())
        ))
    );

    // Parse a variable call
    let input = "@foo();";
    assert_eq!(
        parse_items(input),
        Ok((
            Stylesheet {
                items: ListOfItems(vec![(
                    Item::Call(Call::Variable(VariableCall {
                        name: "foo".into(),
                        lookups: None,
                    })),
                    Span::new(0, 7)
                )])
            },
            Span::new(0, input.len())
        ))
    );

    // Parse a function call
    let input = "foo();";
    assert_eq!(
        parse_items(input),
        Ok((
            Stylesheet {
                items: ListOfItems(vec![(
                    Item::Call(Call::Function(FunctionCall {
                        name: "foo".into(),
                        arguments: ListOfComponentValues(vec![]),
                    })),
                    Span::new(0, 6)
                )])
            },
            Span::new(0, input.len())
        ))
    );
}

#[test]
fn test_stylesheet() {
    let input = r#"
#lib() {
  .colors() {
    @primary: blue;
    @secondary: green;
  }
  .rules(@size) {
    border: @size solid white;
  }
}

.box when (@test[@primary] = blue) {
  width: 100px;
  height: ($width / 2);
}

.bar:extend(.box) {
  @media (min-width: 600px) {
    width: 200px;
    #lib.rules(1px);
  }
}
"#;
    println!("{:#?}", less::parse(input));
}
