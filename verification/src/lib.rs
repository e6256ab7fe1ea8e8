//! A parser for LESS style sheets.
//!
//! Parsing runs in two stages. The [`lexer`] turns source text into a sequence
//! of spanned token trees in which every bracket is already matched with its
//! partner. The [`parser`] then walks those trees and produces the items of
//! the style sheet: at-rules, qualified rules, declarations and calls. The
//! items keep their preludes, values and arguments as raw token trees, which
//! the functions of [`parser::expression`], [`parser::mixin`] and
//! [`parser::selector`] read on demand into values, arguments and selectors.
//!
//! Each function that reads something states what it gives through a
//! function of the same name in a module `rules`, which is written on the
//! text or on the token trees alone. The modules `laws` hold what follows
//! from these rules for every text.
//!
//! Beside the two stages stand a [`tokenizer`] for plain CSS, a
//! [`stream`] of code points with a bounded look-ahead, and a cursor over
//! slices of tokens, [`ref_stream`].

use vstd::prelude::*;
use vstd::string::StringSliceAdditionalSpecFns;

pub mod ast;
pub mod lexer;
pub mod parser;
pub mod ref_stream;
pub mod stream;
pub mod tokenizer;

verus! {

/// What [`parse`] gives for the text `input`: the error of the lexer, or
/// else what the structural parser makes of the token trees.
pub open spec fn spec_parse(input: Seq<char>) -> Result<
    Seq<(ast::ItemModel, lexer::Span)>,
    parser::ParseError,
> {
    match lexer::rules::lex(input) {
        Err(e) => Err(parser::spec_lex_error(e)),
        Ok(trees) => parser::rules::list_of_items(trees, 0),
    }
}

/// Parses a style sheet: lexes `input`, and parses the token trees.
pub fn parse(input: &str) -> (r: Result<ast::Stylesheet, parser::ParseError>)
    ensures
        match r {
            Ok(sheet) => spec_parse(input@) == Ok::<
                Seq<(ast::ItemModel, lexer::Span)>,
                parser::ParseError,
            >(sheet@),
            Err(e) => spec_parse(input@) == Err::<
                Seq<(ast::ItemModel, lexer::Span)>,
                parser::ParseError,
            >(e),
        },
        r matches Ok(sheet) ==> parser::laws::in_order(
            sheet@,
            0,
            0,
            input.spec_bytes().len() as int,
        ),
{
    match lexer::lexer(input) {
        Err(e) => Err(parser::lex_error(e)),
        Ok(trees) => {
            proof {
                parser::laws::lemma_items_in_order(
                    lexer::trees_view(trees@),
                    0,
                    input.spec_bytes().len() as int,
                );
            }
            match parser::parser(trees.as_slice()) {
                Err(e) => Err(e),
                Ok((sheet, _)) => Ok(sheet),
            }
        },
    }
}

} // verus!
