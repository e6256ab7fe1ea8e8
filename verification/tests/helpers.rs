use less::ast::ListOfComponentValues;
use less::lexer::rules::CharClass;
use less::lexer::scan::{scan_block_comment_body, scan_number, scan_run};
use less::lexer::source::SourceText;
use less::lexer::{clone_trees, lexer, Delim, Number, Span, Spanned, Token, TokenTree};
use less::parser::rules::TreeClass;
use less::parser::{
    at_ident, call, copy, declaration, error, error_in, group, guard_from, hash, ident, is_ident,
    is_symbol, item_at, junk, list_of_items, mixin_rule_starts, mixin_segment,
    mixin_selector_end, scan, span_at, strip_trailing_junk, symbol, text_is, trimmed,
    variable_call_end, ErrorKind, ParseError,
};
use less::ast::selector::SimpleSelector;
use less::ast::{DeclarationName, Item};

fn lex(input: &str) -> Vec<Spanned<TokenTree>> {
    lexer(input).unwrap()
}

#[test]
fn runs_of_code_points() {
    let source = SourceText::new("  ab12-c \n x");
    assert_eq!(scan_run(&source, 0, CharClass::Whitespace), 2);
    assert_eq!(scan_run(&source, 2, CharClass::Whitespace), 2);
    assert_eq!(scan_run(&source, 2, CharClass::Name), 8);
    assert_eq!(scan_run(&source, 4, CharClass::Digit), 6);
    assert_eq!(scan_run(&source, 0, CharClass::NotNewline), 9);
    assert_eq!(scan_run(&source, 0, CharClass::Not('x')), 11);
    assert_eq!(scan_run(&source, 12, CharClass::Name), 12);
    assert!(CharClass::Not('a').holds('b') && !CharClass::Not('a').holds('a'));
    let source = SourceText::new("a*b/ */c");
    assert_eq!(scan_block_comment_body(&source, 0), 5);
    assert_eq!(scan_block_comment_body(&source, 6), 8);
}

#[test]
fn numbers_at_a_place() {
    let source = SourceText::new("x+1.5e+7y");
    assert_eq!(scan_number(&source, 0), None);
    assert_eq!(
        scan_number(&source, 1),
        Some((
            Number {
                negative: false,
                integer: "1".into(),
                fraction: "5".into(),
                exponent_negative: false,
                exponent: "7".into()
            },
            8
        ))
    );
    assert_eq!(scan_number(&source, 3), Some((
        Number {
            negative: false,
            integer: "".into(),
            fraction: "5".into(),
            exponent_negative: false,
            exponent: "7".into()
        },
        8
    )));
}

#[test]
fn copies_of_trees() {
    let tts = lex(" a (b [c]) ");
    assert_eq!(clone_trees(&tts), tts);
    assert_eq!(tts[3].0.clone(), tts[3].0);
    assert_eq!(copy(&tts, 1, 4), ListOfComponentValues(clone_trees(&tts[1..4])));
    assert_eq!(copy(&tts, 2, 2), ListOfComponentValues(vec![]));
    assert_eq!(trimmed(&tts, 0, 5), ListOfComponentValues(clone_trees(&tts[1..4])));
    assert_eq!(trimmed(&tts, 0, 1), ListOfComponentValues(vec![]));
    assert_eq!(trimmed(&tts, 4, 5), ListOfComponentValues(vec![]));
}

#[test]
fn looking_at_trees() {
    let tts = lex("@a #b /* c */ ; {d} (e) when");
    assert!(symbol(&tts, 0, '@') && !symbol(&tts, 0, ';') && !symbol(&tts, 1, '@'));
    assert!(!symbol(&tts, 99, '@'));
    assert!(is_symbol(&tts[0].0, '@') && !is_symbol(&tts[1].0, '@'));
    assert_eq!(ident(&tts, 1).map(String::as_str), Some("a"));
    assert_eq!(ident(&tts, 0), None);
    assert_eq!(ident(&tts, 99), None);
    assert_eq!(at_ident(&tts, 0).map(String::as_str), Some("a"));
    assert_eq!(at_ident(&tts, 1), None);
    assert_eq!(hash(&tts, 3).map(String::as_str), Some("b"));
    assert_eq!(hash(&tts, 1), None);
    assert!(is_ident(&tts[13].0, "when") && !is_ident(&tts[13].0, "whe"));
    assert!(!is_ident(&tts[1].0, "when") && !is_ident(&tts[0].0, "@"));
    assert!(text_is(&"when".to_string(), "when") && !text_is(&"when".to_string(), "When"));
    assert_eq!(group(&tts, 9, Delim::Brace).map(Vec::len), Some(1));
    assert_eq!(group(&tts, 9, Delim::Paren), None);
    assert_eq!(group(&tts, 11, Delim::Paren).map(Vec::len), Some(1));
    assert_eq!(group(&tts, 0, Delim::Paren), None);
    assert_eq!(junk(&tts, 4), 7);
    assert_eq!(junk(&tts, 7), 7);
    assert_eq!(junk(&tts, 14), 14);
    assert_eq!(scan(&tts, 0, TreeClass::NotSemicolon), 7);
    assert_eq!(scan(&tts, 8, TreeClass::NotSemicolon), 14);
    assert_eq!(scan(&tts, 0, TreeClass::NotTerminator), 7);
    assert_eq!(scan(&tts, 8, TreeClass::NotTerminator), 9);
    assert_eq!(scan(&tts, 10, TreeClass::NotTerminator), 14);
    assert!(TreeClass::Junk.holds(&tts[2].0) && !TreeClass::Junk.holds(&tts[1].0));
    assert_eq!(strip_trailing_junk(&tts, 0, 7), 4);
    assert_eq!(strip_trailing_junk(&tts, 4, 7), 4);
    assert_eq!(strip_trailing_junk(&tts, 0, 4), 4);
    assert_eq!(guard_from(&tts, 0, 14), 13);
    assert_eq!(guard_from(&tts, 0, 13), 13);
    assert_eq!(span_at(&tts, 1), Span::new(1, 2));
    assert_eq!(span_at(&tts, 14), Span::new(28, 28));
    assert_eq!(span_at(&[], 0), Span::new(0, 0));
}

#[test]
fn kinds_of_errors_in_words() {
    let kinds = [
        ErrorKind::UnterminatedString,
        ErrorKind::UnmatchedOpenDelimiter,
        ErrorKind::StrayCloseDelimiter,
        ErrorKind::ExpectedBlock,
        ErrorKind::ExpectedSemicolon,
        ErrorKind::UnexpectedToken,
        ErrorKind::UnbalancedLookup,
        ErrorKind::EmptyArgument,
        ErrorKind::UnknownItemShape,
        ErrorKind::UnterminatedInterpolation,
        ErrorKind::EmptyExpression,
        ErrorKind::InvalidOperator,
    ];
    for (i, kind) in kinds.iter().enumerate() {
        assert!(!kind.description().is_empty());
        for other in &kinds[..i] {
            assert_ne!(kind.description(), other.description());
        }
    }
    assert_eq!(ErrorKind::ExpectedBlock.description(), "a block is missing");
    assert_eq!(ErrorKind::UnterminatedString.description(), "a string has no closing quote");
}

#[test]
fn errors_as_values() {
    assert_eq!(
        error(ErrorKind::UnexpectedToken, Span::new(1, 2)),
        ParseError { kind: ErrorKind::UnexpectedToken, span: Span::new(1, 2), secondary: None }
    );
    assert_eq!(
        error_in(ErrorKind::ExpectedBlock, Span::new(3, 4), Span::new(1, 2)),
        ParseError {
            kind: ErrorKind::ExpectedBlock,
            span: Span::new(3, 4),
            secondary: Some(Span::new(1, 2))
        }
    );
}

#[test]
fn pieces_of_items() {
    let tts = lex(".a #b > .c (1) ; @d ( ) ; .e() when");
    assert_eq!(mixin_segment(&tts, 0), Some((SimpleSelector::Class("a".into()), 2)));
    assert_eq!(mixin_segment(&tts, 3), Some((SimpleSelector::Id("b".into()), 4)));
    assert_eq!(mixin_segment(&tts, 1), None);
    assert_eq!(mixin_selector_end(&tts, 0), Some(9));
    assert_eq!(mixin_selector_end(&tts, 3), Some(9));
    assert_eq!(mixin_selector_end(&tts, 2), None);
    assert!(!mixin_rule_starts(&tts, 0) && !mixin_rule_starts(&tts, 7));
    assert!(mixin_rule_starts(&tts, 21));
    assert_eq!(variable_call_end(&tts, 17), Some(20));
    assert_eq!(variable_call_end(&tts, 10), None);
    assert!(matches!(call(&tts, 0), Ok((Item::Call(_), 13))));
    assert!(matches!(item_at(&tts, 0), Ok((Item::Call(_), 13))));
    assert!(matches!(item_at(&tts, 14), Ok((Item::AtRule(_), 20))));
    assert_eq!(list_of_items(&tts, 0).map(|items| items.0.len()), Err(ParseError {
        kind: ErrorKind::ExpectedBlock,
        span: Span::new(35, 35),
        secondary: Some(Span::new(26, 27))
    }));
    assert_eq!(list_of_items(&tts, 21).map(|items| items.0.len()).is_err(), true);
    assert_eq!(list_of_items(&tts[..21], 0).map(|items| items.0.len()), Ok(2));
    let tts = lex("a: b ! important ; c");
    let (item, end) = declaration(&tts, DeclarationName::Ident("a".into()), 2);
    assert_eq!(end, 10);
    match item {
        Item::Declaration(found) => {
            assert!(found.important);
            assert_eq!(
                found.value,
                ListOfComponentValues(vec![(
                    TokenTree::Token(Token::Ident("b".into())),
                    Span::new(3, 4)
                )])
            );
        }
        other => panic!("not a declaration: {:?}", other),
    }
}

/// What of `input` stands from the tree of index `pos` on.
fn rest<'a>(input: &'a str, tts: &[Spanned<TokenTree>], pos: usize) -> &'a str {
    if pos < tts.len() {
        &input[tts[pos].1.start..]
    } else {
        ""
    }
}

#[test]
fn test_token() {
    // A token is followed by junk, which goes with it.
    let input = "test  /* foo */ // bar";
    let tts = lex(input);
    assert_eq!(ident(&tts, 0).map(String::as_str), Some("test"));
    assert_eq!(rest(input, &tts, junk(&tts, 1)), "");
}

#[test]
fn test_symbol() {
    let input = "; /* foo */ // bar";
    let tts = lex(input);
    assert!(symbol(&tts, 0, ';'));
    assert_eq!(rest(input, &tts, junk(&tts, 1)), "");
}

/// The junk at the start of `input`: the rest of `input` behind it, or
/// nothing where no junk stands there.
fn junk1(input: &str) -> Option<&str> {
    let tts = lex(input);
    let end = junk(&tts, 0);
    if end > 0 {
        Some(rest(input, &tts, end))
    } else {
        None
    }
}

#[test]
fn test_whitespace() {
    let cases = vec![(" ", Some("")), ("\t", Some("")), ("\n", Some(""))];

    for (input, expected) in cases {
        assert_eq!(junk1(input), expected);
    }
}

#[test]
fn junk_test_line_comment() {
    // The newline behind a line comment is whitespace, and junk as well.
    let cases = vec![("//", Some("")), ("// comment", Some("")), ("// comment\nx", Some("x"))];

    for (input, expected) in cases {
        assert_eq!(junk1(input), expected);
    }
    let tts = lex("// comment\n");
    assert_eq!(tts.len(), 2);
    assert_eq!(tts[0].0, TokenTree::Token(Token::Comment(" comment".into())));
    assert_eq!(tts[1], (TokenTree::Token(Token::Whitespace), Span::new(10, 11)));
}

#[test]
fn junk_test_block_comment() {
    // A block comment that the input ends is a comment.
    let cases =
        vec![("/**/", Some("")), ("/* multiline \n comment */", Some("")), ("/* eof", Some(""))];

    for (input, expected) in cases {
        assert_eq!(junk1(input), expected);
    }
    assert_eq!(lex("/* eof"), vec![(TokenTree::Token(Token::Comment(" eof".into())), Span::new(0, 6))]);
    assert_eq!(junk1("a /**/"), None);
}
