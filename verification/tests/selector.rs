use less::ast::selector::SimpleSelector::{
    Attribute, Class, Id, Negation, PseudoClass, PseudoElement, Type, Universal,
};
use less::ast::selector::{Combinator, Selector, SelectorGroup, SimpleSelectorSequence};
use less::lexer::{lexer, Span, Spanned, TokenTree};
use less::parser::selector::{
    class_selector, combinator, id_selector, selector, selector_group, simple_selector_sequence,
};
use less::parser::{ErrorKind, ParseError};

/// What of `input` stands from the tree of index `pos` on.
fn rest<'a>(input: &'a str, tts: &[Spanned<TokenTree>], pos: usize) -> &'a str {
    if pos < tts.len() {
        &input[tts[pos].1.start..]
    } else {
        ""
    }
}

fn sequence(input: &str) -> Result<(&str, SimpleSelectorSequence), ParseError> {
    let tts = lexer(input).unwrap();
    let (found, end) = simple_selector_sequence(&tts, 0)?;
    Ok((rest(input, &tts, end), found))
}

fn unexpected(start: usize, end: usize) -> ParseError {
    ParseError { kind: ErrorKind::UnexpectedToken, span: Span::new(start, end), secondary: None }
}

#[test]
fn test_simple_selector() {
    let cases = vec![
        ("body", Ok(("", SimpleSelectorSequence(vec![Type("body".into())])))),
        ("*", Ok(("", SimpleSelectorSequence(vec![Universal])))),
        ("#id", Ok(("", SimpleSelectorSequence(vec![Id("id".into())])))),
        (".class", Ok(("", SimpleSelectorSequence(vec![Class("class".into())])))),
        (
            ":pseudo-class",
            Ok(("", SimpleSelectorSequence(vec![PseudoClass("pseudo-class".into())]))),
        ),
        (
            "::pseudo-element",
            Ok(("", SimpleSelectorSequence(vec![PseudoElement("pseudo-element".into())]))),
        ),
        // Negated selectors
        (
            ":not(body)",
            Ok(("", SimpleSelectorSequence(vec![Negation(Box::from(Type("body".into())))]))),
        ),
        (":not(*)", Ok(("", SimpleSelectorSequence(vec![Negation(Box::from(Universal))])))),
        (
            ":not(#id)",
            Ok(("", SimpleSelectorSequence(vec![Negation(Box::from(Id("id".into())))]))),
        ),
        (
            ":not(.class)",
            Ok(("", SimpleSelectorSequence(vec![Negation(Box::from(Class("class".into())))]))),
        ),
        (
            ":not(:pseudo-class)",
            Ok((
                "",
                SimpleSelectorSequence(vec![Negation(Box::from(PseudoClass(
                    "pseudo-class".into(),
                )))]),
            )),
        ),
        (
            ":not(::pseudo-element)",
            Ok((
                "",
                SimpleSelectorSequence(vec![Negation(Box::from(PseudoElement(
                    "pseudo-element".into(),
                )))]),
            )),
        ),
        // The fault is found at `.class)`.
        (":not(body.class)", Err(unexpected(9, 10))),
    ];

    for (input, expected) in cases {
        assert_eq!(sequence(input), expected);
    }
}

#[test]
fn test_simple_selector_sequence() {
    let cases = vec![
        (
            "body.class",
            Ok(("", SimpleSelectorSequence(vec![Type("body".into()), Class("class".into())]))),
        ),
        (
            "body:pseudo",
            Ok(("", SimpleSelectorSequence(vec![Type("body".into()), PseudoClass("pseudo".into())]))),
        ),
        (
            "body:not(:pseudo)",
            Ok((
                "",
                SimpleSelectorSequence(vec![
                    Type("body".into()),
                    Negation(Box::from(PseudoClass("pseudo".into()))),
                ]),
            )),
        ),
    ];

    for (input, expected) in cases {
        assert_eq!(sequence(input), expected);
    }
}

#[test]
fn test_selector() {
    let input = "body.class#id:pseudo:not(.not)::pseudo-elem > test + test test~test, a";
    let tts = lexer(input).unwrap();
    let found = selector_group(&tts, 0).map(|(group, end)| (rest(input, &tts, end), group));

    assert_eq!(
        found,
        Ok((
            "",
            SelectorGroup(vec![
                Selector(
                    vec![
                        SimpleSelectorSequence(vec![
                            Type("body".into()),
                            Class("class".into()),
                            Id("id".into()),
                            PseudoClass("pseudo".into()),
                            Negation(Class("not".into()).into()),
                            PseudoElement("pseudo-elem".into()),
                        ]),
                        SimpleSelectorSequence(vec![Type("test".into())]),
                        SimpleSelectorSequence(vec![Type("test".into())]),
                        SimpleSelectorSequence(vec![Type("test".into())]),
                        SimpleSelectorSequence(vec![Type("test".into())]),
                    ],
                    vec![
                        Combinator::Child,
                        Combinator::NextSibling,
                        Combinator::Descendant,
                        Combinator::SubsequentSibling
                    ]
                ),
                Selector(vec![SimpleSelectorSequence(vec![Type("a".into())])], vec![])
            ])
        ))
    );
}

#[test]
fn a_selector_has_one_combinator_less_than_sequences() {
    for input in ["a", "a b", "a > b + c ~ d e", "a >", ".x .y  ", "*:hover > [lang]::first-line"] {
        let tts = lexer(input).unwrap();
        let (found, _) = selector(&tts, 0).unwrap();
        assert_eq!(found.1.len() + 1, found.0.len(), "{}", input);
    }
}

#[test]
fn a_combinator_without_a_sequence_is_left() {
    let input = "a > , b";
    let tts = lexer(input).unwrap();
    let (found, end) = selector(&tts, 0).unwrap();
    assert_eq!(found, Selector(vec![SimpleSelectorSequence(vec![Type("a".into())])], vec![]));
    assert_eq!(rest(input, &tts, end), "> , b");
}

#[test]
fn attribute_and_single_selectors() {
    assert_eq!(
        sequence("a[href] b"),
        Ok((" b", SimpleSelectorSequence(vec![Type("a".into()), Attribute("href".into())])))
    );
    let tts = lexer("#id.class").unwrap();
    assert_eq!(id_selector(&tts, 0), Some((Id("id".into()), 1)));
    assert_eq!(class_selector(&tts, 1), Some((Class("class".into()), 3)));
    assert_eq!(class_selector(&tts, 0), None);
    assert_eq!(id_selector(&tts, 1), None);
}

#[test]
fn combinators() {
    for (input, expected) in [
        (" > a", Some((Combinator::Child, "a"))),
        ("+a", Some((Combinator::NextSibling, "a"))),
        (" ~ a", Some((Combinator::SubsequentSibling, "a"))),
        (" /* x */ a", Some((Combinator::Descendant, "a"))),
        ("a", None),
        ("", None),
    ] {
        let tts = lexer(input).unwrap();
        let found = combinator(&tts, 0).map(|(c, end)| (c, rest(input, &tts, end)));
        assert_eq!(found, expected, "{:?}", input);
    }
}

#[test]
fn a_selector_must_start_with_a_simple_selector() {
    let tts = lexer("> a").unwrap();
    assert_eq!(selector(&tts, 0), Err(unexpected(0, 1)));
    assert_eq!(selector_group(&tts, 0), Err(unexpected(0, 1)));
    let tts = lexer(":not()").unwrap();
    assert_eq!(selector(&tts, 0), Err(unexpected(0, 0)));
}
