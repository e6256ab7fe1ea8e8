//! What holds of everything that the lexer gives.

use super::rules::{
    closing_delim, lemma_block_comment_body_end, lemma_run_end, lex, lex_seq, lex_tree, mantissa_at,
    number_at, opening_delim, run_end, sign_len, span_of, token_at, CharClass,
};
use super::source::{
    byte_len, byte_offset, lemma_byte_len_is_encoded_len, lemma_byte_offset_monotonic,
    lemma_byte_offset_step, lemma_encode_utf8_push,
};
use super::{Delim, Span, TreeModel};
use vstd::prelude::*;
use vstd::utf8::{encode_scalar, encode_utf8, is_ascii_chars, is_ascii_chars_encode_utf8};

verus! {

/// The spans of the `trees` from index `k` on follow one another without a
/// gap from the byte `start` up to the byte `end`, none of them is empty,
/// and the spans of the content of each group fill what lies between its
/// two brackets in the same way.
pub open spec fn contiguous(trees: Seq<(TreeModel, Span)>, k: int, start: int, end: int) -> bool
    decreases trees, trees.len() - k,
{
    if k < 0 || k >= trees.len() {
        start == end
    } else {
        &&& trees[k].1.start == start
        &&& start < trees[k].1.end <= end
        &&& match trees[k].0 {
            TreeModel::Tree(_, content) => start + 2 <= trees[k].1.end && contiguous(
                content,
                0,
                start + 1,
                trees[k].1.end - 1,
            ),
            _ => true,
        }
        &&& contiguous(trees, k + 1, trees[k].1.end as int, end)
    }
}

/// Each group among the `trees` from index `k` on, and in their content,
/// has a span in `bytes` whose first byte is its opening bracket and whose
/// last byte is its closing bracket.
pub open spec fn balanced(bytes: Seq<u8>, trees: Seq<(TreeModel, Span)>, k: int) -> bool
    decreases trees, trees.len() - k,
{
    if k < 0 || k >= trees.len() {
        true
    } else {
        &&& match trees[k].0 {
            TreeModel::Tree(delim, content) => {
                &&& 0 <= trees[k].1.start < trees[k].1.end <= bytes.len()
                &&& bytes[trees[k].1.start as int] == delim.spec_open() as u8
                &&& bytes[trees[k].1.end - 1] == delim.spec_close() as u8
                &&& balanced(bytes, content, 0)
            },
            _ => true,
        }
        &&& balanced(bytes, trees, k + 1)
    }
}

/// What holds of the trees from `k` on holds of them as a sequence of their
/// own.
proof fn lemma_suffix(
    bytes: Seq<u8>,
    trees: Seq<(TreeModel, Span)>,
    rest: Seq<(TreeModel, Span)>,
    k: int,
    d: int,
    start: int,
    end: int,
)
    requires
        0 <= d <= k <= trees.len(),
        rest.len() == trees.len() - d,
        forall|j: int| 0 <= j < rest.len() ==> rest[j] == trees[j + d],
    ensures
        contiguous(trees, k, start, end) == contiguous(rest, k - d, start, end),
        balanced(bytes, trees, k) == balanced(bytes, rest, k - d),
    decreases trees.len() - k,
{
    if k < trees.len() {
        lemma_suffix(bytes, trees, rest, k + 1, d, trees[k].1.end as int, end);
    }
}

/// The encoding of two texts in a row is the two encodings in a row.
pub proof fn lemma_encode_utf8_concat(a: Seq<char>, b: Seq<char>)
    ensures
        encode_utf8(a + b) == encode_utf8(a) + encode_utf8(b),
    decreases b.len(),
{
    if b.len() == 0 {
        assert(a + b =~= a);
        assert(encode_utf8(a) + encode_utf8(b) =~= encode_utf8(a));
    } else {
        lemma_encode_utf8_concat(a, b.drop_last());
        lemma_encode_utf8_push(a + b.drop_last(), b.last());
        lemma_encode_utf8_push(b.drop_last(), b.last());
        assert((a + b.drop_last()).push(b.last()) =~= a + b);
        assert(b.drop_last().push(b.last()) =~= b);
        assert(encode_utf8(a) + (encode_utf8(b.drop_last()) + encode_scalar(b.last() as u32))
            =~= (encode_utf8(a) + encode_utf8(b.drop_last())) + encode_scalar(b.last() as u32));
    }
}

/// An ASCII code point is one byte of the encoding, and stands at its
/// offset.
pub proof fn lemma_byte_at_offset(s: Seq<char>, i: int)
    requires
        0 <= i < s.len(),
        '\0' <= s[i] <= '\u{7f}',
    ensures
        byte_offset(s, i) < encode_utf8(s).len(),
        encode_utf8(s)[byte_offset(s, i) as int] == s[i] as u8,
        byte_offset(s, i + 1) == byte_offset(s, i) + 1,
        byte_len(s) == encode_utf8(s).len(),
{
    let before = s.subrange(0, i);
    let at = seq![s[i]];
    let after = s.subrange(i + 1, s.len() as int);
    assert(s =~= (before + at) + after);
    lemma_encode_utf8_concat(before + at, after);
    lemma_encode_utf8_concat(before, at);
    lemma_byte_len_is_encoded_len(before);
    lemma_byte_len_is_encoded_len(s);
    lemma_byte_offset_step(s, i);
    assert(is_ascii_chars(at));
    is_ascii_chars_encode_utf8(at);
    assert(at[0] == s[i]);
    let bytes = (encode_utf8(before) + encode_utf8(at)) + encode_utf8(after);
    assert(encode_utf8(s) == bytes);
    assert(bytes[encode_utf8(before).len() as int] == encode_utf8(at)[0]);
}

/// A number ends behind its start and within the text.
pub proof fn lemma_number_progress(s: Seq<char>, i: int)
    requires
        0 <= i < s.len(),
    ensures
        number_at(s, i) matches Some((_, end)) ==> i < end <= s.len(),
{
    let p = i + sign_len(s, i);
    if p <= s.len() {
        lemma_run_end(s, p, CharClass::Digit);
        if p < s.len() {
            lemma_run_end(s, p + 1, CharClass::Digit);
        }
        let q = run_end(s, p, CharClass::Digit);
        if q + 1 <= s.len() {
            lemma_run_end(s, q + 1, CharClass::Digit);
        }
    }
    match mantissa_at(s, p) {
        None => {},
        Some((q, f, r)) => {
            let d = r + 1 + sign_len(s, r + 1);
            if 0 <= d <= s.len() {
                lemma_run_end(s, d, CharClass::Digit);
            }
        },
    }
}

/// A token ends behind its start and within the text.
pub proof fn lemma_token_progress(s: Seq<char>, i: int)
    requires
        0 <= i < s.len(),
    ensures
        token_at(s, i) matches Some((_, end)) ==> i < end <= s.len(),
{
    lemma_run_end(s, i + 1, CharClass::Whitespace);
    lemma_run_end(s, i + 1, CharClass::Name);
    lemma_run_end(s, i + 1, CharClass::Not(s[i]));
    if i + 2 <= s.len() {
        lemma_run_end(s, i + 2, CharClass::NotNewline);
        lemma_run_end(s, i + 2, CharClass::Name);
        lemma_block_comment_body_end(s, i + 2);
    }
    lemma_number_progress(s, i);
}

/// What holds of one spanned tree that reaches from the byte `start` up to
/// the byte `end`: that is its span; and if it is a group, its two brackets
/// are the first and the last of these bytes, and the spans of its content
/// fill what lies between them.
pub open spec fn tree_covers(bytes: Seq<u8>, tree: (TreeModel, Span), start: int, end: int) -> bool {
    &&& tree.1.start == start
    &&& tree.1.end == end
    &&& start < end
    &&& match tree.0 {
        TreeModel::Tree(delim, content) => {
            &&& start + 2 <= end <= bytes.len()
            &&& 0 <= start
            &&& bytes[start] == delim.spec_open() as u8
            &&& bytes[end - 1] == delim.spec_close() as u8
            &&& contiguous(content, 0, start + 1, end - 1)
            &&& balanced(bytes, content, 0)
        },
        _ => true,
    }
}

/// A tree in front of trees that go on where it ends.
proof fn lemma_cons(
    bytes: Seq<u8>,
    tree: (TreeModel, Span),
    rest: Seq<(TreeModel, Span)>,
    start: int,
    mid: int,
    end: int,
)
    requires
        tree_covers(bytes, tree, start, mid),
        mid <= end,
        contiguous(rest, 0, mid, end),
        balanced(bytes, rest, 0),
    ensures
        contiguous(seq![tree] + rest, 0, start, end),
        balanced(bytes, seq![tree] + rest, 0),
{
    let items = seq![tree] + rest;
    lemma_suffix(bytes, items, rest, 1, 1, mid, end);
    assert(items[0] == tree);
}

/// What holds of the token tree that starts at `i`: it ends behind `i`, and
/// it covers the bytes of the text that it was read from.
pub proof fn lemma_lex_tree(s: Seq<char>, i: int)
    requires
        0 <= i < s.len(),
        byte_len(s) <= usize::MAX,
    ensures
        lex_tree(s, i) matches Ok((tree, end)) ==> i < end <= s.len() && tree_covers(
            encode_utf8(s),
            tree,
            byte_offset(s, i) as int,
            byte_offset(s, end) as int,
        ),
    decreases s.len() - i, 0int,
{
    match opening_delim(s[i]) {
        Some(delim) => {
            lemma_lex_seq(s, i + 1);
            match lex_seq(s, i + 1) {
                Ok((items, j, closer)) => {
                    if closer == Some(delim) {
                        lemma_group(s, i, j, delim, items);
                    }
                },
                Err(_) => {},
            }
        },
        None => {
            lemma_token_progress(s, i);
            match token_at(s, i) {
                Some((token, end)) => {
                    lemma_offsets(s, i, end);
                },
                None => {},
            }
        },
    }
}

/// The offsets of two indices in a text that is not too long are the bounds
/// of the span between them.
proof fn lemma_offsets(s: Seq<char>, i: int, end: int)
    requires
        0 <= i < end <= s.len(),
        byte_len(s) <= usize::MAX,
    ensures
        span_of(s, i, end).start == byte_offset(s, i),
        span_of(s, i, end).end == byte_offset(s, end),
        byte_offset(s, i) < byte_offset(s, end) <= byte_len(s),
{
    lemma_byte_offset_monotonic(s, i, end);
    lemma_byte_offset_monotonic(s, end, s.len() as int);
    assert(s.subrange(0, s.len() as int) =~= s);
}

/// A group from the opening bracket at `i` to its partner at `j` covers the
/// bytes from the one to the other.
proof fn lemma_group(s: Seq<char>, i: int, j: int, delim: Delim, items: Seq<(TreeModel, Span)>)
    requires
        0 <= i < j < s.len(),
        byte_len(s) <= usize::MAX,
        opening_delim(s[i]) == Some(delim),
        closing_delim(s[j]) == Some(delim),
        contiguous(items, 0, byte_offset(s, i + 1) as int, byte_offset(s, j) as int),
        balanced(encode_utf8(s), items, 0),
    ensures
        tree_covers(
            encode_utf8(s),
            (TreeModel::Tree(delim, items), span_of(s, i, j + 1)),
            byte_offset(s, i) as int,
            byte_offset(s, j + 1) as int,
        ),
{
    lemma_offsets(s, i, j + 1);
    lemma_byte_at_offset(s, i);
    lemma_byte_at_offset(s, j);
    lemma_byte_offset_monotonic(s, i + 1, j);
}

/// What holds of the token trees from `i` on: they stop at the end of the
/// text or at a closing bracket, and their spans fill the text from `i` up
/// to there.
pub proof fn lemma_lex_seq(s: Seq<char>, i: int)
    requires
        0 <= i <= s.len(),
        byte_len(s) <= usize::MAX,
    ensures
        lex_seq(s, i) matches Ok((items, stop, closer)) ==> {
            &&& i <= stop <= s.len()
            &&& (closer is None ==> stop == s.len())
            &&& (closer is Some ==> stop < s.len() && closing_delim(s[stop]) == closer)
            &&& contiguous(items, 0, byte_offset(s, i) as int, byte_offset(s, stop) as int)
            &&& balanced(encode_utf8(s), items, 0)
        },
    decreases s.len() - i, 1int,
{
    if i < s.len() && closing_delim(s[i]) is None {
        lemma_lex_tree(s, i);
        match lex_tree(s, i) {
            Ok((tree, j)) => {
                lemma_lex_seq(s, j);
                match lex_seq(s, j) {
                    Ok((rest, stop, closer)) => {
                        lemma_byte_offset_monotonic(s, j, stop);
                        lemma_cons(
                            encode_utf8(s),
                            tree,
                            rest,
                            byte_offset(s, i) as int,
                            byte_offset(s, j) as int,
                            byte_offset(s, stop) as int,
                        );
                    },
                    Err(_) => {},
                }
            },
            Err(_) => {},
        }
    }
}

/// The spans of the token trees of a text fill the text: they follow one
/// another without a gap from its first byte to its last, none is empty, and
/// the content of each group fills what lies between its brackets in the
/// same way.
pub proof fn lemma_spans_cover(s: Seq<char>)
    requires
        byte_len(s) <= usize::MAX,
    ensures
        lex(s) matches Ok(trees) ==> contiguous(trees, 0, 0, byte_len(s) as int),
{
    lemma_lex_seq(s, 0);
    lemma_byte_offset_step_zero(s);
    assert(s.subrange(0, s.len() as int) =~= s);
}

/// The first code point starts at the byte 0.
proof fn lemma_byte_offset_step_zero(s: Seq<char>)
    ensures
        byte_offset(s, 0) == 0,
{
    assert(s.subrange(0, 0) =~= Seq::<char>::empty());
}

/// Every group among the token trees of a text is balanced: in the bytes of
/// the text, the byte at the start of its span is its opening bracket, and
/// the last byte of its span is its closing bracket.
pub proof fn lemma_trees_balanced(s: Seq<char>)
    requires
        byte_len(s) <= usize::MAX,
    ensures
        lex(s) matches Ok(trees) ==> balanced(encode_utf8(s), trees, 0),
{
    lemma_lex_seq(s, 0);
}

/// What contiguous trees give for the tree of index `k`: it lies within the
/// bounds, the trees behind it go on where it ends, and if it is a group, its
/// content fills what lies between its brackets.
pub proof fn lemma_contiguous_at(trees: Seq<(TreeModel, Span)>, from: int, start: int, end: int, k: int)
    requires
        0 <= from <= k < trees.len(),
        contiguous(trees, from, start, end),
    ensures
        start <= trees[k].1.start < trees[k].1.end <= end,
        contiguous(trees, k, trees[k].1.start as int, end),
        contiguous(trees, k + 1, trees[k].1.end as int, end),
        trees[k].0 matches TreeModel::Tree(_, content) ==> contiguous(
            content,
            0,
            trees[k].1.start + 1,
            trees[k].1.end - 1,
        ),
    decreases k - from,
{
    if from < k {
        lemma_contiguous_at(trees, from + 1, trees[from].1.end as int, end, k);
    }
}

/// Contiguous trees stand in the order of their spans.
pub proof fn lemma_contiguous_order(
    trees: Seq<(TreeModel, Span)>,
    start: int,
    end: int,
    j: int,
    k: int,
)
    requires
        0 <= j < k < trees.len(),
        contiguous(trees, 0, start, end),
    ensures
        trees[j].1.end <= trees[k].1.start,
{
    lemma_contiguous_at(trees, 0, start, end, j);
    lemma_contiguous_at(trees, j + 1, trees[j].1.end as int, end, k);
}

} // verus!
