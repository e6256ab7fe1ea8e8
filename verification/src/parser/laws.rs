//! What holds of everything that the structural parser gives.

use super::rules::{
    call, declaration, group_at, horizon, ident_at, important_keyword, is_ident, is_junk, is_symbol,
    item_at, lemma_run_end, lemma_trim_end, list_of_items, mixin_rule_starts, mixin_segment,
    mixin_selector_end, semicolon_from, skip_junk, span_of, symbol_at, trim_end, variable_call_end,
    when_keyword, TreeClass,
};
use crate::ast::{DeclarationNameModel, ItemModel, Trees};
use crate::lexer::laws::{contiguous, lemma_contiguous_at, lemma_contiguous_order};
use crate::lexer::{Delim, Span, TreeModel};
use vstd::prelude::*;

verus! {

/// The test for a token tree that is no junk.
pub open spec fn is_significant() -> spec_fn((TreeModel, Span)) -> bool {
    |tree: (TreeModel, Span)| !is_junk(tree.0)
}

/// The token trees among `trees` that are no junk, in their order.
pub open spec fn significant(trees: Trees) -> Trees {
    trees.filter(is_significant())
}

/// A range and the range without the junk at its end hold the same trees
/// that are no junk.
pub proof fn lemma_significant_trimmed(ts: Trees, from: int, to: int)
    requires
        0 <= from <= to <= ts.len(),
    ensures
        significant(ts.subrange(from, to)) == significant(
            ts.subrange(from, trim_end(ts, from, to)),
        ),
    decreases to - from,
{
    if from < to && is_junk(ts[to - 1].0) {
        lemma_significant_trimmed(ts, from, to - 1);
        reveal(Seq::filter);
        assert(ts.subrange(from, to).drop_last() =~= ts.subrange(from, to - 1));
    }
}

/// The last tree of a range, if it is no junk, is the last of the trees of
/// the range that are no junk; the others are those of the range before it.
pub proof fn lemma_significant_last(ts: Trees, from: int, to: int)
    requires
        0 <= from < to <= ts.len(),
        !is_junk(ts[to - 1].0),
    ensures
        significant(ts.subrange(from, to)) == significant(ts.subrange(from, to - 1)).push(
            ts[to - 1],
        ),
{
    reveal(Seq::filter);
    assert(ts.subrange(from, to).drop_last() =~= ts.subrange(from, to - 1));
}

/// A declaration has the flag `important` if and only if the last two token
/// trees of its raw value that are no junk are `!` and `important`; the value
/// that it keeps is the raw value up to some tree, has no junk at its end,
/// and holds the trees of the raw value that are no junk, but for those two.
///
/// The raw value is what stands behind the `:` and the junk there, up to
/// the next `;` or the end.
pub proof fn lemma_important(ts: Trees, name: DeclarationNameModel, after_colon: int)
    requires
        0 <= after_colon <= ts.len(),
    ensures
        ({
            let start = skip_junk(ts, after_colon);
            let raw = ts.subrange(start, semicolon_from(ts, start));
            let tokens = significant(raw);
            let n = tokens.len() as int;
            declaration(ts, name, after_colon).0 matches ItemModel::Declaration {
                name: _,
                value,
                important,
            } && {
                &&& important <==> n >= 2 && is_symbol(tokens[n - 2].0, '!') && is_ident(
                    tokens[n - 1].0,
                    important_keyword(),
                )
                &&& value.len() <= raw.len()
                &&& value == raw.subrange(0, value.len() as int)
                &&& value.len() > 0 ==> !is_junk(value.last().0)
                &&& significant(value) == if important {
                    tokens.subrange(0, n - 2)
                } else {
                    tokens
                }
            }
        }),
{
    lemma_run_end(ts, after_colon, TreeClass::Junk);
    let start = skip_junk(ts, after_colon);
    lemma_run_end(ts, start, TreeClass::NotSemicolon);
    let stop = semicolon_from(ts, start);
    let raw = ts.subrange(start, stop);
    let e1 = trim_end(ts, start, stop);
    lemma_trim_end(ts, start, stop);
    lemma_significant_trimmed(ts, start, stop);
    assert(forall|a: int, b: int|
        start <= a <= b <= stop ==> #[trigger] ts.subrange(a, b) =~= raw.subrange(
            a - start,
            b - start,
        ));
    if e1 > start {
        lemma_significant_last(ts, start, e1);
        let before = significant(ts.subrange(start, e1 - 1));
        if is_ident(ts[e1 - 1].0, important_keyword()) {
            let bang = trim_end(ts, start, e1 - 1);
            lemma_trim_end(ts, start, e1 - 1);
            lemma_significant_trimmed(ts, start, e1 - 1);
            if bang > start {
                lemma_significant_last(ts, start, bang);
                if is_symbol(ts[bang - 1].0, '!') {
                    let end = trim_end(ts, start, bang - 1);
                    lemma_trim_end(ts, start, bang - 1);
                    lemma_significant_trimmed(ts, start, bang - 1);
                    let kept = significant(ts.subrange(start, bang - 1));
                    assert(kept.push(ts[bang - 1]).push(ts[e1 - 1]).subrange(
                        0,
                        kept.len() as int,
                    ) =~= kept);
                }
            } else {
                assert(ts.subrange(start, bang) =~= Seq::empty());
                reveal(Seq::filter);
            }
        }
    } else {
        assert(ts.subrange(start, e1) =~= Seq::empty());
        reveal(Seq::filter);
    }
}

/// The block of an item, if it has one.
pub open spec fn block_of(item: ItemModel) -> Option<Seq<(ItemModel, Span)>> {
    match item {
        ItemModel::AtRule { block, .. } => block,
        ItemModel::GenericRule { block, .. } => Some(block),
        ItemModel::StyleRule { block, .. } => Some(block),
        ItemModel::MixinRule { block, .. } => Some(block),
        _ => None,
    }
}

/// The spans of the `items` from index `k` on lie between the byte `start`
/// and the byte `end`, none of them is empty, each starts where the one
/// before it has ended or behind that, and the spans of the items of each
/// block lie within the span of the item that holds the block, in the same
/// way.
pub open spec fn in_order(items: Seq<(ItemModel, Span)>, k: int, start: int, end: int) -> bool
    decreases items, items.len() - k,
{
    if k < 0 || k >= items.len() {
        start <= end
    } else {
        &&& start <= items[k].1.start < items[k].1.end <= end
        &&& match items[k].0 {
            ItemModel::AtRule { block: Some(block), .. } => in_order(
                block,
                0,
                items[k].1.start as int,
                items[k].1.end as int,
            ),
            ItemModel::GenericRule { block, .. } => in_order(
                block,
                0,
                items[k].1.start as int,
                items[k].1.end as int,
            ),
            ItemModel::StyleRule { block, .. } => in_order(
                block,
                0,
                items[k].1.start as int,
                items[k].1.end as int,
            ),
            ItemModel::MixinRule { block, .. } => in_order(
                block,
                0,
                items[k].1.start as int,
                items[k].1.end as int,
            ),
            _ => true,
        }
        &&& in_order(items, k + 1, items[k].1.end as int, end)
    }
}

/// Items in order within bounds are in order within wider bounds.
proof fn lemma_widen(items: Seq<(ItemModel, Span)>, k: int, start: int, end: int, a: int, b: int)
    requires
        in_order(items, k, start, end),
        a <= start,
        end <= b,
        0 <= k,
    ensures
        in_order(items, k, a, b),
    decreases items.len() - k,
{
    if k < items.len() {
        lemma_widen(items, k + 1, items[k].1.end as int, end, items[k].1.end as int, b);
    }
}

/// What holds of the items from `k` on holds of them as a sequence of their
/// own.
proof fn lemma_items_suffix(
    items: Seq<(ItemModel, Span)>,
    rest: Seq<(ItemModel, Span)>,
    k: int,
    start: int,
    end: int,
)
    requires
        1 <= k <= items.len(),
        rest.len() == items.len() - 1,
        forall|j: int| 0 <= j < rest.len() ==> rest[j] == items[j + 1],
    ensures
        in_order(items, k, start, end) == in_order(rest, k - 1, start, end),
    decreases items.len() - k,
{
    if k < items.len() {
        lemma_items_suffix(items, rest, k + 1, items[k].1.end as int, end);
    }
}

/// The byte at which the tree of index `i` starts, or `end` behind the last
/// tree.
pub open spec fn start_at(ts: Trees, i: int, end: int) -> int {
    if 0 <= i < ts.len() {
        ts[i].1.start as int
    } else {
        end
    }
}

/// What holds of the block that the content of the group at `h` gives.
proof fn lemma_block(ts: Trees, h: int, start: int, end: int)
    requires
        0 <= h < ts.len(),
        contiguous(ts, 0, start, end),
        ts[h].0 is Tree,
    ensures
        list_of_items(ts[h].0->Tree_1, 0) matches Ok(block) ==> in_order(
            block,
            0,
            ts[h].1.start as int,
            ts[h].1.end as int,
        ),
    decreases ts, 0int, 0int,
{
    lemma_contiguous_at(ts, 0, start, end, h);
    let content = ts[h].0->Tree_1;
    lemma_list_of_items(content, 0, ts[h].1.start + 1, ts[h].1.end - 1);
    match list_of_items(content, 0) {
        Ok(block) => {
            lemma_widen(
                block,
                0,
                start_at(content, 0, ts[h].1.end - 1),
                ts[h].1.end - 1,
                ts[h].1.start as int,
                ts[h].1.end as int,
            );
            if content.len() > 0 {
                lemma_contiguous_at(content, 0, ts[h].1.start + 1, ts[h].1.end - 1, 0);
            }
        },
        Err(_) => {},
    }
}

/// What holds of the item that starts at `i`: it ends behind `i`, and the
/// items of its block lie within the bytes from the start of the tree at `i`
/// to the end of the last tree of the item.
proof fn lemma_item_at(ts: Trees, i: int, start: int, end: int)
    requires
        0 <= i < ts.len(),
        contiguous(ts, 0, start, end),
    ensures
        item_at(ts, i) matches Ok((item, stop)) ==> i < stop <= ts.len() && (block_of(
            item,
        ) matches Some(block) ==> in_order(
            block,
            0,
            ts[i].1.start as int,
            ts[stop - 1].1.end as int,
        )),
    decreases ts, ts.len() - i, 0int,
{
    lemma_contiguous_at(ts, 0, start, end, i);
    lemma_run_end(ts, i, TreeClass::NotTerminator);
    lemma_run_end(ts, i + 1, TreeClass::Junk);
    if i + 2 <= ts.len() {
        lemma_run_end(ts, i + 2, TreeClass::Junk);
        lemma_run_end(ts, i + 2, TreeClass::NotTerminator);
    }
    if symbol_at(ts, i, '@') && ident_at(ts, i + 1) is Some {
        let colon = skip_junk(ts, i + 2);
        if symbol_at(ts, colon, ':') {
            lemma_declaration_end(ts, DeclarationNameModel::Variable(ident_at(ts, i + 1)->0), colon + 1);
        } else if variable_call_end(ts, i + 2) is Some {
            lemma_run_end(ts, i + 3, TreeClass::Junk);
        } else {
            let h = horizon(ts, i + 2);
            if h < ts.len() && ts[h].0 is Tree {
                lemma_block(ts, h, start, end);
                lemma_contiguous_order(ts, start, end, i, h);
                match list_of_items(ts[h].0->Tree_1, 0) {
                    Ok(block) => {
                        lemma_widen(
                            block,
                            0,
                            ts[h].1.start as int,
                            ts[h].1.end as int,
                            ts[i].1.start as int,
                            ts[h].1.end as int,
                        );
                    },
                    Err(_) => {},
                }
            }
        }
    } else if mixin_rule_starts(ts, i) {
        let segment = mixin_segment(ts, i)->0;
        let segment_end = segment.1;
        lemma_run_end(ts, segment_end, TreeClass::Junk);
        let paren = skip_junk(ts, segment_end);
        lemma_run_end(ts, paren + 1, TreeClass::Junk);
        let next = skip_junk(ts, paren + 1);
        let guarded = ident_at(ts, next) == Some(when_keyword());
        if guarded {
            lemma_run_end(ts, next + 1, TreeClass::NotTerminator);
        }
        let h = if guarded {
            horizon(ts, next + 1)
        } else {
            next
        };
        if 0 <= h < ts.len() && ts[h].0 is Tree {
            lemma_block(ts, h, start, end);
            lemma_contiguous_order(ts, start, end, i, h);
            match list_of_items(ts[h].0->Tree_1, 0) {
                Ok(block) => {
                    lemma_widen(
                        block,
                        0,
                        ts[h].1.start as int,
                        ts[h].1.end as int,
                        ts[i].1.start as int,
                        ts[h].1.end as int,
                    );
                },
                Err(_) => {},
            }
        }
    } else if group_at(ts, horizon(ts, i), Delim::Brace) is Some {
        let h = horizon(ts, i);
        lemma_block(ts, h, start, end);
        if i < h {
            lemma_contiguous_order(ts, start, end, i, h);
        }
        match list_of_items(ts[h].0->Tree_1, 0) {
            Ok(block) => {
                lemma_widen(
                    block,
                    0,
                    ts[h].1.start as int,
                    ts[h].1.end as int,
                    ts[i].1.start as int,
                    ts[h].1.end as int,
                );
            },
            Err(_) => {},
        }
    } else if ident_at(ts, i) is Some && symbol_at(ts, skip_junk(ts, i + 1), ':') {
        lemma_declaration_end(
            ts,
            DeclarationNameModel::Ident(ident_at(ts, i)->0),
            skip_junk(ts, i + 1) + 1,
        );
    } else {
        lemma_call_end(ts, i);
    }
}

/// A declaration ends at its `:` or behind it, and within the trees.
proof fn lemma_declaration_end(ts: Trees, name: DeclarationNameModel, after_colon: int)
    requires
        0 <= after_colon <= ts.len(),
    ensures
        after_colon <= declaration(ts, name, after_colon).1 <= ts.len(),
        block_of(declaration(ts, name, after_colon).0) is None,
{
    lemma_run_end(ts, after_colon, TreeClass::Junk);
    lemma_run_end(ts, skip_junk(ts, after_colon), TreeClass::NotSemicolon);
}

/// Where the selector of a mixin call ends.
proof fn lemma_mixin_selector_end(ts: Trees, i: int)
    requires
        0 <= i <= ts.len(),
    ensures
        mixin_selector_end(ts, i) matches Some(end) ==> i < end <= ts.len(),
    decreases ts.len() - i,
{
    match mixin_segment(ts, i) {
        None => {},
        Some((_, end)) => {
            lemma_run_end(ts, end, TreeClass::Junk);
            let next = skip_junk(ts, end);
            if next + 1 <= ts.len() {
                lemma_run_end(ts, next + 1, TreeClass::Junk);
            }
            let next = if symbol_at(ts, next, '>') {
                skip_junk(ts, next + 1)
            } else {
                next
            };
            if i < next <= ts.len() {
                lemma_mixin_selector_end(ts, next);
            }
        },
    }
}

/// A call ends behind its start, and has no block.
proof fn lemma_call_end(ts: Trees, i: int)
    requires
        0 <= i < ts.len(),
    ensures
        call(ts, i) matches Ok((item, stop)) ==> i < stop <= ts.len() && block_of(item) is None,
{
    lemma_mixin_selector_end(ts, i);
    if mixin_selector_end(ts, i) is Some {
        let selector_end = mixin_selector_end(ts, i)->0;
        lemma_run_end(ts, selector_end, TreeClass::Junk);
        let paren = skip_junk(ts, selector_end);
        if paren + 1 <= ts.len() {
            lemma_run_end(ts, paren + 1, TreeClass::Junk);
        }
    }
    if i + 2 <= ts.len() {
        lemma_run_end(ts, i + 2, TreeClass::Junk);
    }
}

/// What holds of the items from `i` on: their spans are in order, between
/// the start of the tree at `i` and `end`.
pub proof fn lemma_list_of_items(ts: Trees, i: int, start: int, end: int)
    requires
        0 <= i <= ts.len(),
        contiguous(ts, 0, start, end),
    ensures
        list_of_items(ts, i) matches Ok(items) ==> in_order(items, 0, start_at(ts, i, end), end),
    decreases ts, ts.len() - i, 1int,
{
    lemma_run_end(ts, i, TreeClass::Junk);
    let first = skip_junk(ts, i);
    if ts.len() > 0 {
        lemma_contiguous_at(ts, 0, start, end, ts.len() - 1);
    }
    if i < ts.len() {
        lemma_contiguous_at(ts, 0, start, end, i);
    }
    if first < ts.len() {
        lemma_item_at(ts, first, start, end);
        lemma_contiguous_at(ts, 0, start, end, first);
        if i < first {
            lemma_contiguous_order(ts, start, end, i, first);
        }
        match item_at(ts, first) {
            Ok((item, stop)) => {
                lemma_list_of_items(ts, stop, start, end);
                lemma_contiguous_at(ts, 0, start, end, stop - 1);
                if first < stop - 1 {
                    lemma_contiguous_order(ts, start, end, first, stop - 1);
                }
                if stop < ts.len() {
                    lemma_contiguous_order(ts, start, end, stop - 1, stop);
                }
                match list_of_items(ts, stop) {
                    Ok(rest) => {
                        let head = (item, span_of(ts, first, stop));
                        let items = seq![head] + rest;
                        lemma_widen(
                            rest,
                            0,
                            start_at(ts, stop, end),
                            end,
                            head.1.end as int,
                            end,
                        );
                        lemma_items_suffix(items, rest, 1, head.1.end as int, end);
                        assert(items[0] == head);
                        lemma_widen(
                            items,
                            0,
                            head.1.start as int,
                            end,
                            start_at(ts, i, end),
                            end,
                        );
                    },
                    Err(_) => {},
                }
            },
            Err(_) => {},
        }
    }
}

/// The spans of the items of a style sheet are in order: where the spans of
/// the token trees follow one another from the byte `start` to the byte
/// `end`, as those that the lexer gives do, each item lies between these
/// bytes, none is empty, each starts where the one before it has ended or
/// behind that, and the items of each block lie within the item that holds
/// the block, in the same way.
pub proof fn lemma_items_in_order(ts: Trees, start: int, end: int)
    requires
        contiguous(ts, 0, start, end),
    ensures
        list_of_items(ts, 0) matches Ok(items) ==> in_order(items, 0, start, end),
{
    lemma_list_of_items(ts, 0, start, end);
    match list_of_items(ts, 0) {
        Ok(items) => {
            if ts.len() > 0 {
                lemma_contiguous_at(ts, 0, start, end, 0);
            }
            lemma_widen(items, 0, start_at(ts, 0, end), end, start, end);
        },
        Err(_) => {},
    }
}

} // verus!
