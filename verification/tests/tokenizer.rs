use less::tokenizer::helpers;
use less::tokenizer::{Token, Tokenizer};

fn tokens(input: &str) -> Vec<Token> {
    let mut tokenizer = Tokenizer::new(input);
    let mut found = Vec::new();
    while let Some(token) = tokenizer.next() {
        found.push(token);
    }
    found
}

#[test]
fn test_cases() {
    let cases: Vec<(&str, Vec<Token>)> = vec![
        ("ident", vec![Token::Ident("ident".into())]),
        (
            "func()",
            vec![Token::Function("func".into()), Token::LeftParenthesis, Token::RightParenthesis],
        ),
        ("@at-keyword", vec![Token::AtKeyword("at-keyword".into())]),
        ("{", vec![Token::LeftCurlyBracket]),
        ("}", vec![Token::RightCurlyBracket]),
        ("(", vec![Token::LeftParenthesis]),
        (")", vec![Token::RightParenthesis]),
        ("[", vec![Token::LeftSquareBracket]),
        ("]", vec![Token::RightSquareBracket]),
    ];

    for (input, expected) in cases {
        assert_eq!(tokens(input), expected);
    }
}

#[test]
fn test() {
    let input: &str = r#"
#lib() {
  .colors() {
    @primary: blue;
    @secondary: green;
  }
  .rules(@size) {
    border: @size solid white;
  }

  @test();
  @test[];
  @test[param];

  @test-asd: "blue";
}

.box when (#lib.colors[@primary] = blue) {
  width: 100px;
  height: ($width / 2);
}

.bar:extend(.box) {
  @media (min-width: 600px) {
    width: 200px;
    #lib.rules(1px);
  }
}
"#;
    let mut tokenizer = Tokenizer::new(input);
    while let Some(token) = tokenizer.next() {
        println!("{:?}", token);
    }
}

#[test]
fn numbers_units_and_percentages() {
    assert_eq!(
        tokens("12 1.5 +3e2 -4E-1 5e+x 10px 50% 7em;"),
        vec![
            Token::Number { value: "12".into(), is_integer: true },
            Token::Whitespace(" ".into()),
            Token::Number { value: "1.5".into(), is_integer: false },
            Token::Whitespace(" ".into()),
            Token::Number { value: "+3e2".into(), is_integer: false },
            Token::Whitespace(" ".into()),
            Token::Number { value: "-4E-1".into(), is_integer: false },
            Token::Whitespace(" ".into()),
            Token::Dimension { value: "5".into(), is_integer: true, unit: "e".into() },
            Token::Delim('+'),
            Token::Ident("x".into()),
            Token::Whitespace(" ".into()),
            Token::Dimension { value: "10".into(), is_integer: true, unit: "px".into() },
            Token::Whitespace(" ".into()),
            Token::Percentage { value: "50".into() },
            Token::Whitespace(" ".into()),
            Token::Dimension { value: "7".into(), is_integer: true, unit: "em".into() },
            Token::Semicolon,
        ]
    );
    // A unit is read only where three code points follow the number.
    assert_eq!(
        tokens("15px"),
        vec![Token::Number { value: "15".into(), is_integer: true }, Token::Ident("px".into())]
    );
    // `.` without a digit behind it is no part of the number.
    assert_eq!(
        tokens("1.x"),
        vec![
            Token::Number { value: "1".into(), is_integer: true },
            Token::Delim('.'),
            Token::Ident("x".into())
        ]
    );
    assert_eq!(
        tokens(".5 "),
        vec![Token::Number { value: ".5".into(), is_integer: false }, Token::Whitespace(" ".into())]
    );
}

#[test]
fn signs_and_stops() {
    assert_eq!(tokens("+"), vec![Token::Delim('+')]);
    assert_eq!(
        tokens("+ a"),
        vec![Token::Delim('+'), Token::Whitespace(" ".into()), Token::Ident("a".into())]
    );
    assert_eq!(tokens("-->"), vec![Token::CDC]);
    assert_eq!(tokens("-ab"), vec![Token::Ident("-ab".into())]);
    assert_eq!(tokens("-;;"), vec![Token::Delim('-'), Token::Semicolon, Token::Semicolon]);
    assert_eq!(tokens(". "), vec![Token::Delim('.'), Token::Whitespace(" ".into())]);
    assert_eq!(
        tokens("<!--"),
        vec![Token::CDO, Token::Delim('!'), Token::Delim('-'), Token::Delim('-')]
    );
    assert_eq!(tokens("<a"), vec![Token::Delim('<'), Token::Ident("a".into())]);
    assert_eq!(tokens(":,"), vec![Token::Colon, Token::Comma]);
    assert_eq!(tokens("\\\n"), vec![Token::Delim('\\'), Token::Whitespace("\n".into())]);
    assert_eq!(tokens("\\"), vec![Token::Delim('\\')]);
    assert_eq!(tokens("&"), vec![Token::Delim('&')]);
}

#[test]
fn hashes_and_at_keywords() {
    assert_eq!(tokens("#abc"), vec![Token::Hash { is_id: true, value: "abc".into() }]);
    assert_eq!(tokens("#123"), vec![Token::Hash { is_id: false, value: "123".into() }]);
    // Three code points must follow the `#` and the `@`.
    assert_eq!(tokens("#ab"), vec![Token::Delim('#'), Token::Ident("ab".into())]);
    assert_eq!(tokens("@ab"), vec![Token::Delim('@'), Token::Ident("ab".into())]);
    assert_eq!(
        tokens("@1ab"),
        vec![
            Token::Delim('@'),
            Token::Number { value: "1".into(), is_integer: true },
            Token::Ident("ab".into())
        ]
    );
}

#[test]
fn strings() {
    // The value is what stands between the quotes.
    assert_eq!(tokens("\"ab\""), vec![Token::String { value: "ab".into() }]);
    assert_eq!(tokens("'ab'x"), vec![Token::String { value: "ab".into() }, Token::Ident("x".into())]);
    assert_eq!(tokens("''"), vec![Token::String { value: "".into() }]);
    // The other quote closes nothing.
    assert_eq!(tokens("'a\"b'"), vec![Token::String { value: "a\"b".into() }]);
    // A string that the input ends.
    assert_eq!(tokens("'ab"), vec![Token::String { value: "ab".into() }]);
    // A newline in a string.
    assert_eq!(
        tokens("'a\nb"),
        vec![Token::BadString, Token::Whitespace("\n".into()), Token::Ident("b".into())]
    );
}

#[test]
fn string_tail_leaves_the_closing_quote_out() {
    let mut tokenizer = Tokenizer::new("'abc' x");
    tokenizer.advance(1);
    assert_eq!(tokenizer.consume_string_tail('\''), Some("abc".to_string()));
    assert_eq!(tokenizer.position(), 5);
    assert_eq!(tokenizer.next(), Some(Token::Whitespace(" ".into())));
}

#[test]
fn functions_and_urls() {
    assert_eq!(
        tokens("url('a')"),
        vec![
            Token::Function("url".into()),
            Token::String { value: "a".into() },
            Token::RightParenthesis
        ]
    );
    assert_eq!(
        tokens("URL(   \"a\")"),
        vec![
            Token::Function("URL".into()),
            Token::Whitespace(" ".into()),
            Token::String { value: "a".into() },
            Token::RightParenthesis
        ]
    );
    assert_eq!(
        tokens("url(a)"),
        vec![Token::Url, Token::Ident("a".into()), Token::RightParenthesis]
    );
}

#[test]
fn a_name_takes_its_escapes() {
    let marker = || -> String { "<ESCAPE CODEPOINTS>".into() };
    let mut tokenizer = Tokenizer::new("ab\\c d");
    assert_eq!(tokenizer.next(), Some(Token::Ident(marker())));
    assert_eq!(tokenizer.position(), 4);
    assert_eq!(tokenizer.next(), Some(Token::Whitespace(" ".into())));
    assert_eq!(tokenizer.next(), Some(Token::Ident("d".into())));
    assert_eq!(tokenizer.next(), None);
    let mut tokenizer = Tokenizer::new("\\a");
    assert_eq!(tokenizer.next(), Some(Token::Ident(marker())));
    assert_eq!(tokenizer.position(), 2);
    assert_eq!(tokenizer.next(), None);
    assert_eq!(tokens("\\(a"), vec![Token::Ident(marker())]);
    assert_eq!(tokens("\\\\"), vec![Token::Ident(marker())]);
    assert_eq!(tokens("-\\a("), vec![Token::Function(marker()), Token::LeftParenthesis]);
    assert_eq!(
        tokens("@\\a b"),
        vec![Token::AtKeyword(marker()), Token::Whitespace(" ".into()), Token::Ident("b".into())]
    );
    assert_eq!(tokens("#\\ab"), vec![Token::Hash { is_id: true, value: marker() }]);
    assert_eq!(
        tokens("1\\ax"),
        vec![Token::Dimension { value: "1".into(), is_integer: true, unit: marker() }]
    );
    let mut tokenizer = Tokenizer::new("a\\b");
    assert_eq!(tokenizer.consume_name(), marker());
    assert_eq!(tokenizer.position(), 3);
}

#[test]
fn a_backslash_that_escapes_nothing_is_a_delimiter() {
    let marker = || -> String { "<ESCAPE CODEPOINTS>".into() };
    assert_eq!(tokens("\\"), vec![Token::Delim('\\')]);
    assert_eq!(
        tokens("\\\na"),
        vec![Token::Delim('\\'), Token::Whitespace("\n".into()), Token::Ident("a".into())]
    );
    // A name that ends at a backslash is given as the marker.
    assert_eq!(tokens("ab\\"), vec![Token::Ident(marker()), Token::Delim('\\')]);
    assert_eq!(
        tokens("ab\\\n"),
        vec![Token::Ident(marker()), Token::Delim('\\'), Token::Whitespace("\n".into())]
    );
}

#[test]
fn a_backslash_in_a_string_leaves_the_marker() {
    let marker = || -> String { "<ESCAPE CODEPOINTS>".into() };
    let mut tokenizer = Tokenizer::new("'a\\'");
    assert_eq!(tokenizer.next(), Some(Token::String { value: marker() }));
    assert_eq!(tokenizer.position(), 2);
    assert_eq!(tokenizer.next(), Some(Token::Ident(marker())));
    assert_eq!(tokenizer.position(), 4);
    assert_eq!(tokenizer.next(), None);
    assert_eq!(tokens("'a\\"), vec![Token::String { value: marker() }, Token::Delim('\\')]);
}

#[test]
fn every_token_takes_a_code_point() {
    let inputs = [
        "\\a",
        "ab\\c",
        "\\",
        "'a\\'",
        "#\\",
        "@\\\n",
        "url(  a)",
        "<!-- a -->",
        "+.5e-3px 10% -x --y \r\n\t{}[]();:,",
    ];
    for input in inputs {
        let length = input.chars().count();
        let mut tokenizer = Tokenizer::new(input);
        let mut taken = 0;
        loop {
            let before = tokenizer.position();
            match tokenizer.next() {
                Some(_) => {
                    assert!(before < tokenizer.position());
                    taken += 1;
                    assert!(taken <= length);
                }
                None => {
                    assert_eq!(tokenizer.position(), length);
                    break;
                }
            }
        }
    }
}

#[test]
fn a_carriage_return_is_whitespace() {
    assert_eq!(tokens("a\r\nb"), vec![
        Token::Ident("a".into()),
        Token::Whitespace("\r\n".into()),
        Token::Ident("b".into())
    ]);
    assert_eq!(tokens("\r"), vec![Token::Whitespace("\r".into())]);
}

#[test]
fn moving_and_looking_ahead() {
    let mut tokenizer = Tokenizer::new("aé;");
    assert_eq!(tokenizer.lookahead(0), Some('a'));
    assert_eq!(tokenizer.lookahead(1), Some('é'));
    assert_eq!(tokenizer.lookahead(3), None);
    assert_eq!(tokenizer.lookahead_pair(), (Some('a'), Some('é')));
    assert_eq!(tokenizer.lookahead_triple(), (Some('a'), Some('é'), Some(';')));
    assert_eq!(tokenizer.consume(), Some('a'));
    assert_eq!(tokenizer.position(), 1);
    tokenizer.advance(5);
    assert_eq!(tokenizer.position(), 3);
    assert_eq!(tokenizer.consume(), None);
    assert_eq!(tokenizer.lookahead_triple(), (None, None, None));
    let mut tokenizer = Tokenizer::new("12.5e3x");
    assert_eq!(tokenizer.consume_number(), ("12.5e3".to_string(), false));
    assert_eq!(tokenizer.consume_name(), "x");
    let mut tokenizer = Tokenizer::new("007a");
    tokenizer.consume_digits();
    assert_eq!(tokenizer.position(), 3);
    let mut tokenizer = Tokenizer::new("ab'c");
    assert_eq!(tokenizer.consume_string_tail('\''), Some("ab".to_string()));
    assert_eq!(tokenizer.position(), 3);
}

#[test]
fn code_point_classes() {
    assert!(helpers::is_digit('0') && helpers::is_digit('9') && !helpers::is_digit('a'));
    assert!(!helpers::is_digit('\u{0660}'));
    assert!(helpers::is_hex_digit('f') && helpers::is_hex_digit('A') && !helpers::is_hex_digit('g'));
    assert!(helpers::is_whitespace(' ') && helpers::is_whitespace('\t'));
    assert!(helpers::is_whitespace('\n') && helpers::is_whitespace('\r'));
    assert!(helpers::is_whitespace('\u{0c}') && helpers::is_whitespace('\u{3000}'));
    assert!(!helpers::is_whitespace('a') && !helpers::is_whitespace('\u{200b}'));
    assert!(helpers::is_uppercase_letter('Q') && !helpers::is_uppercase_letter('q'));
    assert!(helpers::is_lowercase_letter('q') && !helpers::is_lowercase_letter('Q'));
    assert!(helpers::is_letter('q') && helpers::is_letter('Q') && !helpers::is_letter('_'));
    assert!(helpers::is_non_ascii('é') && !helpers::is_non_ascii('\u{7f}'));
    assert!(helpers::is_name_start('_') && helpers::is_name_start('é'));
    assert!(!helpers::is_name_start('-') && !helpers::is_name_start('1'));
    assert!(helpers::is_name('-') && helpers::is_name('1') && !helpers::is_name('.'));
    assert!(helpers::is_valid_escape('\\', 'a') && !helpers::is_valid_escape('\\', '\n'));
    assert!(!helpers::is_valid_escape('a', 'a'));
    assert!(helpers::would_start_identifier('-', '-', '1'));
    assert!(helpers::would_start_identifier('-', 'a', '1'));
    assert!(helpers::would_start_identifier('-', '\\', 'a'));
    assert!(!helpers::would_start_identifier('-', '\\', '\n'));
    assert!(!helpers::would_start_identifier('-', '1', 'a'));
    assert!(helpers::would_start_identifier('a', '(', '('));
    assert!(helpers::would_start_identifier('\\', 'a', 'a'));
    assert!(!helpers::would_start_identifier('\\', '\n', 'a'));
    assert!(!helpers::would_start_identifier('1', 'a', 'a'));
    assert!(helpers::would_start_number('+', '1', 'a') && helpers::would_start_number('-', '.', '1'));
    assert!(!helpers::would_start_number('+', '.', 'a') && !helpers::would_start_number('+', 'a', '1'));
    assert!(helpers::would_start_number('.', '1', 'a') && !helpers::would_start_number('.', 'a', '1'));
    assert!(helpers::would_start_number('1', 'a', 'a') && !helpers::would_start_number('a', '1', '1'));
}

#[test]
fn collect_takes_what_is_left() {
    let mut tokenizer = Tokenizer::new("a: 'b' c\\d;");
    assert_eq!(tokenizer.next(), Some(Token::Ident("a".into())));
    assert_eq!(
        tokenizer.collect(),
        vec![
            Token::Colon,
            Token::Whitespace(" ".into()),
            Token::String { value: "b".into() },
            Token::Whitespace(" ".into()),
            Token::Ident("<ESCAPE CODEPOINTS>".into()),
            Token::Semicolon
        ]
    );
    assert_eq!(tokenizer.position(), 11);
    assert_eq!(tokenizer.collect(), vec![]);
    assert_eq!(tokenizer.next(), None);
    assert_eq!(Tokenizer::new("\\a\\").collect(), tokens("\\a\\"));
}
