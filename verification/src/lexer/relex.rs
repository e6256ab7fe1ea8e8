//! Lexing a token tree again: the text of a token tree, lexed by itself,
//! gives the token tree.

use super::helpers::{spec_is_name, spec_is_name_start, spec_is_valid_escape, spec_is_whitespace};
use super::laws::{lemma_lex_seq, lemma_lex_tree, lemma_number_progress, lemma_token_progress};
use super::rules::{
    block_comment_body_end, closing_delim, digit_at, exponent_at, ident_at,
    lemma_block_comment_body_end, lemma_run_end, lex, lex_seq, lex_tree, mantissa_at, number_at,
    opening_delim, run_end, sign_len, token_at, CharClass,
};
use super::source::{byte_len, byte_offset, lemma_byte_offset_monotonic};
use super::{Delim, LexError, NumberModel, Span, TokenModel, TreeModel};
use vstd::prelude::*;

verus! {

/// The text `s` from the index `p` on.
pub open spec fn from(s: Seq<char>, p: int) -> Seq<char> {
    s.subrange(p, s.len() as int)
}

/// A run in the text from `p` on ends where it ends in the whole text.
proof fn lemma_shift_run(s: Seq<char>, p: int, i: int, class: CharClass)
    requires
        0 <= p <= i <= s.len(),
    ensures
        run_end(from(s, p), i - p, class) == run_end(s, i, class) - p,
    decreases s.len() - i,
{
    if i < s.len() && class.spec_holds(s[i]) {
        lemma_shift_run(s, p, i + 1, class);
    }
}

/// The body of a block comment in the text from `p` on ends where it ends
/// in the whole text.
proof fn lemma_shift_comment(s: Seq<char>, p: int, i: int)
    requires
        0 <= p <= i <= s.len(),
    ensures
        block_comment_body_end(from(s, p), i - p) == block_comment_body_end(s, i) - p,
    decreases s.len() - i,
{
    if i < s.len() && !(s[i] == '*' && i + 1 < s.len() && s[i + 1] == '/') {
        lemma_shift_comment(s, p, i + 1);
    }
}

/// The number that starts at `i`, in a text of which `p` code points were
/// dropped.
pub open spec fn shift_number(r: Option<(NumberModel, int)>, p: int) -> Option<(NumberModel, int)> {
    match r {
        Some((number, end)) => Some((number, end - p)),
        None => None,
    }
}

/// A number in the text from `p` on is the number of the whole text.
proof fn lemma_shift_number(s: Seq<char>, p: int, i: int)
    requires
        0 <= p <= i < s.len(),
    ensures
        number_at(from(s, p), i - p) == shift_number(number_at(s, i), p),
{
    let u = from(s, p);
    let start = i + sign_len(s, i);
    assert(sign_len(u, i - p) == sign_len(s, i));
    lemma_number_progress(s, i);
    if start <= s.len() {
        lemma_shift_run(s, p, start, CharClass::Digit);
        lemma_run_end(s, start, CharClass::Digit);
        let q = run_end(s, start, CharClass::Digit);
        if q + 1 <= s.len() {
            lemma_shift_run(s, p, q + 1, CharClass::Digit);
            lemma_run_end(s, q + 1, CharClass::Digit);
        }
        if start + 1 <= s.len() {
            lemma_shift_run(s, p, start + 1, CharClass::Digit);
            lemma_run_end(s, start + 1, CharClass::Digit);
        }
    }
    assert(mantissa_at(u, start - p) == match mantissa_at(s, start) {
        Some((q, f, r)) => Some((q - p, f - p, r - p)),
        None => None,
    });
    match mantissa_at(s, start) {
        None => {},
        Some((q, f, r)) => {
            assert(sign_len(u, r + 1 - p) == sign_len(s, r + 1));
            let d = r + 1 + sign_len(s, r + 1);
            if d <= s.len() {
                lemma_shift_run(s, p, d, CharClass::Digit);
                lemma_run_end(s, d, CharClass::Digit);
            }
            assert(exponent_at(u, r - p) == match exponent_at(s, r) {
                Some((d, e)) => Some((d - p, e - p)),
                None => None,
            });
            assert(u.subrange(start - p, q - p) =~= s.subrange(start, q));
            assert(u.subrange(f - p, r - p) =~= s.subrange(f, r));
            match exponent_at(s, r) {
                Some((d, e)) => {
                    assert(u.subrange(d - p, e - p) =~= s.subrange(d, e));
                },
                None => {},
            }
        },
    }
}

/// The token that starts at `i`, in a text of which `p` code points were
/// dropped.
pub open spec fn shift_token(r: Option<(TokenModel, int)>, p: int) -> Option<(TokenModel, int)> {
    match r {
        Some((token, end)) => Some((token, end - p)),
        None => None,
    }
}

/// A token in the text from `p` on is the token of the whole text.
proof fn lemma_shift_token(s: Seq<char>, p: int, i: int)
    requires
        0 <= p <= i < s.len(),
    ensures
        token_at(from(s, p), i - p) == shift_token(token_at(s, i), p),
{
    let u = from(s, p);
    let n = s.len() as int;
    assert(u[i - p] == s[i]);
    assert(u.subrange(i - p, u.len() as int) =~= s.subrange(i, n));
    lemma_shift_run(s, p, i, CharClass::Whitespace);
    lemma_shift_run(s, p, i, CharClass::Name);
    lemma_shift_run(s, p, i + 1, CharClass::Name);
    lemma_shift_run(s, p, i + 1, CharClass::Not(s[i]));
    lemma_run_end(s, i, CharClass::Name);
    lemma_run_end(s, i + 1, CharClass::Name);
    lemma_run_end(s, i + 1, CharClass::Not(s[i]));
    lemma_shift_number(s, p, i);
    if i + 1 < n {
        assert(u[i + 1 - p] == s[i + 1]);
        lemma_shift_run(s, p, i + 2, CharClass::NotNewline);
        lemma_run_end(s, i + 2, CharClass::NotNewline);
        lemma_shift_comment(s, p, i + 2);
        lemma_block_comment_body_end(s, i + 2);
        let line = run_end(s, i + 2, CharClass::NotNewline);
        assert(u.subrange(i + 2 - p, line - p) =~= s.subrange(i + 2, line));
        let body = block_comment_body_end(s, i + 2);
        assert(u.subrange(i + 2 - p, body - p) =~= s.subrange(i + 2, body));
    }
    let name = run_end(s, i, CharClass::Name);
    assert(u.subrange(i - p, name - p) =~= s.subrange(i, name));
    let hash = run_end(s, i + 1, CharClass::Name);
    assert(u.subrange(i + 1 - p, hash - p) =~= s.subrange(i + 1, hash));
    let quote = run_end(s, i + 1, CharClass::Not(s[i]));
    assert(u.subrange(i + 1 - p, quote - p) =~= s.subrange(i + 1, quote));
}

/// The bytes of two texts in a row are the bytes of the one and the bytes
/// of the other.
pub proof fn lemma_byte_len_concat(a: Seq<char>, b: Seq<char>)
    ensures
        byte_len(a + b) == byte_len(a) + byte_len(b),
    decreases b.len(),
{
    if b.len() == 0 {
        assert(a + b =~= a);
    } else {
        lemma_byte_len_concat(a, b.drop_last());
        assert((a + b).drop_last() =~= a + b.drop_last());
    }
}

/// The offset of an index in the text from `p` on is its offset in the
/// whole text less the offset of `p`.
pub proof fn lemma_shift_offset(s: Seq<char>, p: int, i: int)
    requires
        0 <= p <= i <= s.len(),
    ensures
        byte_offset(from(s, p), i - p) == byte_offset(s, i) - byte_offset(s, p),
{
    lemma_byte_len_concat(s.subrange(0, p), s.subrange(p, i));
    assert(s.subrange(0, p) + s.subrange(p, i) =~= s.subrange(0, i));
    assert(from(s, p).subrange(0, i - p) =~= s.subrange(p, i));
}

/// The span `span`, in a text of which `offset` bytes were dropped.
pub open spec fn shift_span(span: Span, offset: int) -> Span {
    Span { start: (span.start - offset) as usize, end: (span.end - offset) as usize }
}

/// The spanned tree `tree`, in a text of which `offset` bytes were dropped:
/// the same tree, with each span in it that many bytes further to the front.
pub open spec fn shift_tree(tree: (TreeModel, Span), offset: int) -> (TreeModel, Span)
    decreases tree,
{
    (
        match tree.0 {
            TreeModel::Token(token) => TreeModel::Token(token),
            TreeModel::Tree(delim, content) => TreeModel::Tree(
                delim,
                shift_trees(content, offset, content.len()),
            ),
        },
        shift_span(tree.1, offset),
    )
}

/// The first `n` of `trees`, in a text of which `offset` bytes were dropped.
pub open spec fn shift_trees(trees: Seq<(TreeModel, Span)>, offset: int, n: nat) -> Seq<
    (TreeModel, Span),
>
    decreases trees, n,
{
    if n == 0 || n > trees.len() {
        Seq::empty()
    } else {
        shift_trees(trees, offset, (n - 1) as nat).push(shift_tree(trees[n - 1], offset))
    }
}

/// `shift_trees` goes through the trees one by one.
proof fn lemma_shift_trees(trees: Seq<(TreeModel, Span)>, offset: int, n: nat)
    requires
        n <= trees.len(),
    ensures
        shift_trees(trees, offset, n).len() == n,
        forall|k: int|
            0 <= k < n ==> (#[trigger] shift_trees(trees, offset, n)[k]) == shift_tree(
                trees[k],
                offset,
            ),
    decreases n,
{
    if n > 0 {
        lemma_shift_trees(trees, offset, (n - 1) as nat);
    }
}

/// A tree in front of trees, shifted, is the shifted tree in front of the
/// shifted trees.
proof fn lemma_shift_cons(tree: (TreeModel, Span), rest: Seq<(TreeModel, Span)>, offset: int)
    ensures
        shift_trees(seq![tree] + rest, offset, (rest.len() + 1) as nat) == seq![
            shift_tree(tree, offset),
        ] + shift_trees(rest, offset, rest.len()),
{
    let all = seq![tree] + rest;
    lemma_shift_trees(all, offset, all.len());
    lemma_shift_trees(rest, offset, rest.len());
    assert(shift_trees(all, offset, all.len()) =~= seq![shift_tree(tree, offset)] + shift_trees(
        rest,
        offset,
        rest.len(),
    ));
}

/// The token tree that starts at `i` in the text from `p` on is that of the
/// whole text, shifted.
proof fn lemma_shift_lex_tree(s: Seq<char>, p: int, i: int)
    requires
        0 <= p <= i < s.len(),
        byte_len(s) <= usize::MAX,
        lex_tree(s, i) is Ok,
    ensures
        lex_tree(from(s, p), i - p) == Ok::<((TreeModel, Span), int), LexError>(
            (
                shift_tree(lex_tree(s, i)->Ok_0.0, byte_offset(s, p) as int),
                lex_tree(s, i)->Ok_0.1 - p,
            ),
        ),
    decreases s.len() - i, 0int,
{
    let u = from(s, p);
    let offset = byte_offset(s, p) as int;
    assert(u[i - p] == s[i]);
    lemma_lex_tree(s, i);
    let end = lex_tree(s, i)->Ok_0.1;
    lemma_shift_offset(s, p, i);
    lemma_shift_offset(s, p, end);
    lemma_byte_offset_monotonic(s, p, i);
    lemma_byte_offset_monotonic(s, i, end);
    lemma_byte_offset_monotonic(s, end, s.len() as int);
    assert(s.subrange(0, s.len() as int) =~= s);
    match opening_delim(s[i]) {
        Some(delim) => {
            lemma_shift_lex_seq(s, p, i + 1);
        },
        None => {
            lemma_shift_token(s, p, i);
        },
    }
}

/// The token trees from `i` on in the text from `p` on are those of the
/// whole text, shifted.
proof fn lemma_shift_lex_seq(s: Seq<char>, p: int, i: int)
    requires
        0 <= p <= i <= s.len(),
        byte_len(s) <= usize::MAX,
        lex_seq(s, i) is Ok,
    ensures
        lex_seq(from(s, p), i - p) == Ok::<(Seq<(TreeModel, Span)>, int, Option<Delim>), LexError>(
            (
                shift_trees(
                    lex_seq(s, i)->Ok_0.0,
                    byte_offset(s, p) as int,
                    lex_seq(s, i)->Ok_0.0.len(),
                ),
                lex_seq(s, i)->Ok_0.1 - p,
                lex_seq(s, i)->Ok_0.2,
            ),
        ),
    decreases s.len() - i, 1int,
{
    let u = from(s, p);
    let offset = byte_offset(s, p) as int;
    if i < s.len() {
        assert(u[i - p] == s[i]);
        if closing_delim(s[i]) is None {
            lemma_lex_tree(s, i);
            lemma_shift_lex_tree(s, p, i);
            let tree = lex_tree(s, i)->Ok_0.0;
            let j = lex_tree(s, i)->Ok_0.1;
            lemma_shift_lex_seq(s, p, j);
            let rest = lex_seq(s, j)->Ok_0.0;
            lemma_shift_cons(tree, rest, offset);
        }
    }
}

/// The text `s` up to the index `q`.
pub open spec fn upto(s: Seq<char>, q: int) -> Seq<char> {
    s.subrange(0, q)
}

/// A run in the text up to `q` ends where it ends in the whole text, or at
/// `q`.
proof fn lemma_cut_run(s: Seq<char>, q: int, i: int, class: CharClass)
    requires
        0 <= i <= q <= s.len(),
    ensures
        run_end(upto(s, q), i, class) == if run_end(s, i, class) <= q {
            run_end(s, i, class)
        } else {
            q
        },
    decreases q - i,
{
    lemma_run_end(s, i, class);
    if i < q && class.spec_holds(s[i]) {
        lemma_run_end(s, i + 1, class);
        lemma_cut_run(s, q, i + 1, class);
    }
}

/// The body of a block comment that is closed before `q` ends in the text up
/// to `q` where it ends in the whole text.
proof fn lemma_cut_comment(s: Seq<char>, q: int, i: int)
    requires
        0 <= i <= q <= s.len(),
        block_comment_body_end(s, i) + 2 <= q,
    ensures
        block_comment_body_end(upto(s, q), i) == block_comment_body_end(s, i),
    decreases q - i,
{
    lemma_block_comment_body_end(s, i);
    if i < s.len() && !(s[i] == '*' && i + 1 < s.len() && s[i + 1] == '/') {
        lemma_block_comment_body_end(s, i + 1);
        lemma_cut_comment(s, q, i + 1);
    }
}

/// The offset of an index in the text up to `q` is its offset in the whole
/// text.
proof fn lemma_cut_offset(s: Seq<char>, q: int, i: int)
    requires
        0 <= i <= q <= s.len(),
    ensures
        byte_offset(upto(s, q), i) == byte_offset(s, i),
{
    assert(upto(s, q).subrange(0, i) =~= s.subrange(0, i));
}

/// Whether what decides on a token that ends at `end` lies before `q`:
/// either a closing bracket stands at `b`, at the end of the token or behind
/// it, and before `q`; or the text up to `q` ends with the token.
pub open spec fn decided_before(s: Seq<char>, end: int, q: int, b: int) -> bool {
    q == end || (end <= b < q && 0 <= b < s.len() && closing_delim(s[b]) is Some)
}

/// The identifier `-`.
pub open spec fn lone_minus() -> TokenModel {
    TokenModel::Ident(seq!['-'])
}

/// Where the number that starts at `i` ends.
pub open spec fn number_end(s: Seq<char>, i: int) -> int {
    match number_at(s, i) {
        Some((_, end)) => end,
        None => i,
    }
}

/// Where the token that starts at `i` ends.
pub open spec fn token_end(s: Seq<char>, i: int) -> int {
    match token_at(s, i) {
        Some((_, end)) => end,
        None => i,
    }
}

/// The digits of a number that ends at `q` or before it are the same in the
/// text up to `q`.
proof fn lemma_cut_mantissa(s: Seq<char>, q: int, start: int)
    requires
        0 <= start <= q <= s.len(),
        mantissa_at(s, start) matches Some((_, _, r)) && r <= q,
    ensures
        mantissa_at(upto(s, q), start) == mantissa_at(s, start),
{
    let v = upto(s, q);
    assert(v.len() == q);
    assert(forall|k: int| 0 <= k < q ==> v[k] == s[k]);
    lemma_run_end(s, start, CharClass::Digit);
    lemma_cut_run(s, q, start, CharClass::Digit);
    if digit_at(s, start) {
        let m = run_end(s, start, CharClass::Digit);
        lemma_run_end(s, start + 1, CharClass::Digit);
        if m + 1 <= s.len() {
            lemma_run_end(s, m + 1, CharClass::Digit);
        }
        assert(start < m <= q);
        assert(digit_at(v, start));
        assert(run_end(v, start, CharClass::Digit) == m);
        if m < s.len() && s[m] == '.' && digit_at(s, m + 1) {
            lemma_run_end(s, m + 1, CharClass::Digit);
            lemma_run_end(s, m + 2, CharClass::Digit);
            lemma_cut_run(s, q, m + 1, CharClass::Digit);
            assert(digit_at(v, m + 1));
        } else {
            assert(!(m < v.len() && v[m] == '.' && digit_at(v, m + 1)));
        }
    } else {
        lemma_run_end(s, start + 1, CharClass::Digit);
        if start + 2 <= s.len() {
            lemma_run_end(s, start + 2, CharClass::Digit);
        }
        lemma_cut_run(s, q, start + 1, CharClass::Digit);
        assert(!digit_at(v, start));
        assert(digit_at(v, start + 1));
    }
}

/// The exponent of a number that ends at `end`, of which all is decided
/// before `q`, is the same in the text up to `q`.
proof fn lemma_cut_exponent(s: Seq<char>, q: int, r: int, end: int, b: int)
    requires
        0 <= r <= end <= q <= s.len(),
        end == match exponent_at(s, r) {
            Some((_, e)) => e,
            None => r,
        },
        decided_before(s, end, q, b),
    ensures
        exponent_at(upto(s, q), r) == exponent_at(s, r),
{
    let v = upto(s, q);
    assert(v.len() == q);
    assert(forall|k: int| 0 <= k < q ==> v[k] == s[k]);
    let d = r + 1 + sign_len(s, r + 1);
    if exponent_at(s, r) is Some {
        lemma_run_end(s, d, CharClass::Digit);
        lemma_run_end(s, d + 1, CharClass::Digit);
        lemma_cut_run(s, q, d, CharClass::Digit);
        assert(sign_len(v, r + 1) == sign_len(s, r + 1));
        assert(digit_at(v, d));
    } else {
        if r < q && (s[r] == 'e' || s[r] == 'E') {
            if r + 1 < q {
                assert(sign_len(v, r + 1) == sign_len(s, r + 1));
                assert(!digit_at(v, d));
            } else {
                assert(sign_len(v, r + 1) == 0);
                assert(!digit_at(v, r + 1));
            }
        }
    }
}

/// A number of which all is decided before `q` is the same number in the
/// text up to `q`.
proof fn lemma_cut_number(s: Seq<char>, q: int, i: int, b: int)
    requires
        0 <= i < s.len(),
        number_at(s, i) is Some,
        number_end(s, i) <= q <= s.len(),
        decided_before(s, number_end(s, i), q, b),
    ensures
        number_at(upto(s, q), i) == number_at(s, i),
{
    let v = upto(s, q);
    let start = i + sign_len(s, i);
    lemma_number_progress(s, i);
    assert(v.len() == q);
    assert(forall|k: int| 0 <= k < q ==> v[k] == s[k]);
    assert(sign_len(v, i) == sign_len(s, i));
    match mantissa_at(s, start) {
        None => {},
        Some((m, f, r)) => {
            lemma_run_end(s, start, CharClass::Digit);
            if start + 1 <= s.len() {
                lemma_run_end(s, start + 1, CharClass::Digit);
            }
            let int_end = run_end(s, start, CharClass::Digit);
            if int_end + 1 <= s.len() {
                lemma_run_end(s, int_end + 1, CharClass::Digit);
            }
            let d = r + 1 + sign_len(s, r + 1);
            if 0 <= d <= s.len() {
                lemma_run_end(s, d, CharClass::Digit);
            }
            lemma_cut_mantissa(s, q, start);
            lemma_cut_exponent(s, q, r, number_end(s, i), b);
            assert(v.subrange(start, m) =~= s.subrange(start, m));
            assert(v.subrange(f, r) =~= s.subrange(f, r));
            match exponent_at(s, r) {
                Some((d, e)) => {
                    assert(v.subrange(d, e) =~= s.subrange(d, e));
                },
                None => {},
            }
        },
    }
}

/// Whether an identifier starts at `i` in the text up to `q`, for a token
/// of the whole text that starts at `i` and of which all is decided before
/// `q`: it does if and only if one starts there in the whole text.
proof fn lemma_cut_ident(s: Seq<char>, q: int, i: int, b: int)
    requires
        0 <= i < s.len(),
        token_at(s, i) is Some,
        i < token_end(s, i) <= q <= s.len(),
        decided_before(s, token_end(s, i), q, b),
        q == token_end(s, i) ==> token_at(s, i) != Some((lone_minus(), i + 1)),
        !spec_is_whitespace_at(s, i),
        !comment_at(s, i),
    ensures
        ident_at(upto(s, q), i) == ident_at(s, i),
{
    let v = upto(s, q);
    let n = s.len() as int;
    assert(v.len() == q);
    assert(forall|k: int| 0 <= k < q ==> v[k] == s[k]);
    let w = s.subrange(i, n);
    let x = v.subrange(i, q);
    assert(w[0] == s[i]);
    assert(x[0] == s[i]);
    assert(x.len() == q - i);
    assert(w.len() == n - i);
    let w1 = w.subrange(1, w.len() as int);
    let x1 = x.subrange(1, x.len() as int);
    assert(w1.len() == n - i - 1);
    assert(x1.len() == q - i - 1);
    if i + 1 < n {
        assert(w[1] == s[i + 1]);
        assert(w1[0] == s[i + 1]);
    }
    if i + 2 < n {
        assert(w1[1] == s[i + 2]);
    }
    if i + 1 < q {
        assert(x[1] == s[i + 1]);
        assert(x1[0] == s[i + 1]);
    }
    if i + 2 < q {
        assert(x1[1] == s[i + 2]);
    }
    lemma_run_end(s, i, CharClass::Name);
    lemma_run_end(s, i + 1, CharClass::Name);
    if i + 2 <= n {
        lemma_run_end(s, i + 2, CharClass::Name);
    }
    if s[i] == '-' {
        if i + 1 < n && (spec_is_name_start(s[i + 1]) || s[i + 1] == '-') {
            assert(spec_is_name(s[i + 1]));
            assert(spec_is_name(s[i]));
            assert(ident_at(s, i));
            assert(token_end(s, i) >= i + 2);
        } else if spec_is_valid_escape(w1) {
            assert(ident_at(s, i));
            assert(run_end(s, i, CharClass::Name) == i + 1);
            assert(s.subrange(i, i + 1) =~= seq!['-']);
            assert(token_at(s, i) == Some((lone_minus(), i + 1)));
            assert(spec_is_valid_escape(x1));
        } else {
            assert(!ident_at(s, i));
            lemma_number_progress(s, i);
            assert(!spec_is_valid_escape(x1));
        }
    }
}

/// Whether whitespace stands at `i`.
pub open spec fn spec_is_whitespace_at(s: Seq<char>, i: int) -> bool {
    0 <= i < s.len() && spec_is_whitespace(s[i])
}

/// Whether a comment opens at `i`.
pub open spec fn comment_at(s: Seq<char>, i: int) -> bool {
    0 <= i && i + 1 < s.len() && s[i] == '/' && (s[i + 1] == '/' || s[i + 1] == '*')
}

/// A token of which all is decided before `q` is the same token in the text
/// up to `q`.
proof fn lemma_cut_token(s: Seq<char>, q: int, i: int, b: int)
    requires
        0 <= i < s.len(),
        token_at(s, i) is Some,
        token_end(s, i) <= q <= s.len(),
        decided_before(s, token_end(s, i), q, b),
        q == token_end(s, i) ==> token_at(s, i) != Some((lone_minus(), i + 1)),
    ensures
        token_at(upto(s, q), i) == token_at(s, i),
{
    let v = upto(s, q);
    let n = s.len() as int;
    let c = s[i];
    lemma_token_progress(s, i);
    assert(v.len() == q);
    assert(forall|k: int| 0 <= k < q ==> v[k] == s[k]);
    assert(v[i] == c);
    if spec_is_whitespace(c) {
        lemma_cut_run(s, q, i, CharClass::Whitespace);
    } else if c == '/' && i + 1 < n && s[i + 1] == '/' {
        lemma_run_end(s, i + 2, CharClass::NotNewline);
        lemma_cut_run(s, q, i + 2, CharClass::NotNewline);
        let e = run_end(s, i + 2, CharClass::NotNewline);
        assert(v.subrange(i + 2, e) =~= s.subrange(i + 2, e));
    } else if c == '/' && i + 1 < n && s[i + 1] == '*' {
        lemma_block_comment_body_end(s, i + 2);
        let e = block_comment_body_end(s, i + 2);
        if e < n {
            lemma_cut_comment(s, q, i + 2);
            assert(v.subrange(i + 2, e) =~= s.subrange(i + 2, e));
        } else {
            assert(v =~= s);
        }
    } else {
        lemma_cut_ident(s, q, i, b);
        if ident_at(s, i) {
            lemma_cut_run(s, q, i, CharClass::Name);
            let e = run_end(s, i, CharClass::Name);
            assert(v.subrange(i, e) =~= s.subrange(i, e));
        } else if c == '#' && i + 1 < n && spec_is_name(s[i + 1]) {
            lemma_run_end(s, i + 1, CharClass::Name);
            lemma_run_end(s, i + 2, CharClass::Name);
            lemma_cut_run(s, q, i + 1, CharClass::Name);
            let e = run_end(s, i + 1, CharClass::Name);
            assert(v.subrange(i + 1, e) =~= s.subrange(i + 1, e));
        } else if c == '"' || c == '\'' {
            lemma_run_end(s, i + 1, CharClass::Not(c));
            lemma_cut_run(s, q, i + 1, CharClass::Not(c));
            let e = run_end(s, i + 1, CharClass::Not(c));
            assert(v.subrange(i + 1, e) =~= s.subrange(i + 1, e));
        } else if number_at(s, i) is Some {
            lemma_cut_number(s, q, i, b);
        } else {
            lemma_cut_no_number(s, q, i);
        }
    }
}

/// Where no number starts in the whole text, none starts in the text up to
/// `q`.
proof fn lemma_cut_no_number(s: Seq<char>, q: int, i: int)
    requires
        0 <= i < q <= s.len(),
        number_at(s, i) is None,
    ensures
        number_at(upto(s, q), i) is None,
{
    let v = upto(s, q);
    assert(v.len() == q);
    assert(forall|k: int| 0 <= k < q ==> v[k] == s[k]);
    assert(sign_len(v, i) == sign_len(s, i));
}

/// The token tree that starts at `i`.
pub open spec fn tree_at(s: Seq<char>, i: int) -> (TreeModel, Span)
    recommends
        lex_tree(s, i) is Ok,
{
    (lex_tree(s, i)->Ok_0).0
}

/// Where the token tree that starts at `i` ends.
pub open spec fn tree_end(s: Seq<char>, i: int) -> int
    recommends
        lex_tree(s, i) is Ok,
{
    (lex_tree(s, i)->Ok_0).1
}

/// Where the token trees from `i` on stop.
pub open spec fn seq_stop(s: Seq<char>, i: int) -> int
    recommends
        lex_seq(s, i) is Ok,
{
    (lex_seq(s, i)->Ok_0).1
}

/// A token tree of which all is decided before `q` is the same token tree
/// in the text up to `q`.
proof fn lemma_cut_lex_tree(s: Seq<char>, q: int, i: int, b: int)
    requires
        0 <= i < s.len(),
        byte_len(s) <= usize::MAX,
        lex_tree(s, i) is Ok,
        tree_end(s, i) <= q <= s.len(),
        decided_before(s, tree_end(s, i), q, b),
        q == tree_end(s, i) ==> tree_at(s, i).0 != TreeModel::Token(lone_minus()),
    ensures
        lex_tree(upto(s, q), i) == lex_tree(s, i),
    decreases s.len() - i, 0int,
{
    let v = upto(s, q);
    let end = tree_end(s, i);
    lemma_lex_tree(s, i);
    assert(v.len() == q);
    assert(v[i] == s[i]);
    lemma_cut_offset(s, q, i);
    lemma_cut_offset(s, q, end);
    match opening_delim(s[i]) {
        Some(delim) => {
            lemma_lex_seq(s, i + 1);
            lemma_cut_lex_seq(s, q, i + 1);
        },
        None => {
            lemma_token_progress(s, i);
            lemma_cut_token(s, q, i, b);
        },
    }
}

/// Token trees that stop at a closing bracket before `q` are the same in
/// the text up to `q`.
proof fn lemma_cut_lex_seq(s: Seq<char>, q: int, i: int)
    requires
        0 <= i <= s.len(),
        byte_len(s) <= usize::MAX,
        lex_seq(s, i) matches Ok((_, stop, closer)) && closer is Some && stop < q,
        q <= s.len(),
    ensures
        lex_seq(upto(s, q), i) == lex_seq(s, i),
    decreases s.len() - i, 1int,
{
    let v = upto(s, q);
    let stop = seq_stop(s, i);
    lemma_lex_seq(s, i);
    assert(v.len() == q);
    assert(v[i] == s[i]);
    if closing_delim(s[i]) is None {
        lemma_lex_tree(s, i);
        let j = tree_end(s, i);
        lemma_lex_seq(s, j);
        lemma_cut_lex_tree(s, q, i, stop);
        lemma_cut_lex_seq(s, q, j);
    }
}

/// Lexing a token tree again gives the token tree: where `tree` is the
/// token tree that the lexer reads from the index `p` of a text on, up to
/// the index `q`, the text from `p` up to `q` by itself has one token tree,
/// which is `tree` with its spans counted from the start of that text.
///
/// Every token tree that the lexer gives, at the top or in a group, is read
/// in this way from the index at which it starts.
///
/// This holds of every token tree but of the identifier `-`, which is an
/// identifier only where a backslash follows it.
pub proof fn lemma_relex(s: Seq<char>, p: int)
    requires
        0 <= p < s.len(),
        byte_len(s) <= usize::MAX,
        closing_delim(s[p]) is None,
        lex_tree(s, p) is Ok,
        tree_at(s, p).0 != TreeModel::Token(lone_minus()),
    ensures
        lex(s.subrange(p, tree_end(s, p))) == Ok::<Seq<(TreeModel, Span)>, LexError>(
            seq![shift_tree(tree_at(s, p), byte_offset(s, p) as int)],
        ),
{
    let q = tree_end(s, p);
    let tree = tree_at(s, p);
    lemma_lex_tree(s, p);
    let v = upto(s, q);
    lemma_cut_lex_tree(s, q, p, 0);
    lemma_cut_offset(s, q, p);
    lemma_cut_offset(s, q, q);
    lemma_byte_offset_monotonic(s, q, s.len() as int);
    assert(s.subrange(0, s.len() as int) =~= s);
    assert(v.subrange(0, q) =~= v);
    assert(byte_len(v) <= usize::MAX);
    lemma_shift_lex_tree(v, p, p);
    let t = s.subrange(p, q);
    assert(from(v, p) =~= t);
    let shifted = shift_tree(tree, byte_offset(s, p) as int);
    assert(lex_tree(t, 0) == Ok::<((TreeModel, Span), int), LexError>((shifted, q - p)));
    assert(t[0] == s[p]);
    assert(lex_seq(t, q - p) == Ok::<(Seq<(TreeModel, Span)>, int, Option<Delim>), LexError>(
        (Seq::empty(), t.len() as int, None),
    ));
    assert(seq![shifted] + Seq::<(TreeModel, Span)>::empty() =~= seq![shifted]);
}

/// The token trees that the lexer gives are read one after the other: the
/// first of the trees from `i` on is the token tree that starts at `i`, and
/// the others are the trees from its end on. The content of a group is read
/// in the same way from the index behind its opening bracket.
pub proof fn lemma_trees_one_by_one(s: Seq<char>, i: int)
    requires
        0 <= i <= s.len(),
        lex_seq(s, i) is Ok,
    ensures
        ({
            let trees = (lex_seq(s, i)->Ok_0).0;
            trees.len() > 0 ==> {
                &&& i < s.len()
                &&& closing_delim(s[i]) is None
                &&& lex_tree(s, i) is Ok
                &&& trees[0] == tree_at(s, i)
                &&& lex_seq(s, tree_end(s, i)) is Ok
                &&& (lex_seq(s, tree_end(s, i))->Ok_0).0 == trees.drop_first()
                &&& tree_at(s, i).0 matches TreeModel::Tree(_, content) ==> lex_seq(s, i + 1) is Ok
                    && (lex_seq(s, i + 1)->Ok_0).0 == content
            }
        }),
{
    if i < s.len() && closing_delim(s[i]) is None {
        match lex_tree(s, i) {
            Ok((tree, j)) => {
                if i < j <= s.len() {
                    match lex_seq(s, j) {
                        Ok((rest, _, _)) => {
                            assert((seq![tree] + rest).drop_first() =~= rest);
                        },
                        Err(_) => {},
                    }
                }
            },
            Err(_) => {},
        }
    }
}

} // verus!
