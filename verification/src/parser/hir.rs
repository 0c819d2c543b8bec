//! The lowering engine: turns the flat line-level tree into the document
//! tree, merging paragraph runs, nesting list items by indentation and
//! pairing emphasis delimiters.

use crate::ast::hir;
use crate::ast::lir;
use crate::ast::lir::Emphasis;
use crate::parser::lir::delim_text;
use vstd::prelude::*;

verus! {

pub type Result<T> = std::result::Result<T, Error>;

/// The lowering engine's error: lowering is total, so this can never
/// arise.
#[derive(Debug)]
pub enum Error {
    Lowering,
}

// ---------------------------------------------------------------------------
// Emphasis resolution
// ---------------------------------------------------------------------------

/// Position of the first marker of kind `kind` in `segs` (or `segs.len()`
/// when it has none).
pub open spec fn first_match(segs: Seq<lir::TextSegmentView>, kind: Emphasis) -> int
    decreases segs.len(),
{
    if segs.len() == 0 {
        0
    } else if segs[0] == lir::TextSegmentView::Emphasis(kind) {
        0
    } else {
        1 + first_match(segs.drop_first(), kind)
    }
}

pub proof fn lemma_first_match(segs: Seq<lir::TextSegmentView>, kind: Emphasis)
    ensures
        0 <= first_match(segs, kind) <= segs.len(),
        forall|i: int|
            0 <= i < first_match(segs, kind) ==> segs[i] != lir::TextSegmentView::Emphasis(kind),
        first_match(segs, kind) < segs.len() ==> segs[first_match(segs, kind)]
            == lir::TextSegmentView::Emphasis(kind),
    decreases segs.len(),
{
    if segs.len() > 0 && segs[0] != lir::TextSegmentView::Emphasis(kind) {
        lemma_first_match(segs.drop_first(), kind);
        assert forall|i: int|
            0 <= i < first_match(segs, kind) implies segs[i] != lir::TextSegmentView::Emphasis(
            kind,
        ) by {
            if i > 0 {
                assert(segs.drop_first()[i - 1] != lir::TextSegmentView::Emphasis(kind));
            }
        }
        if first_match(segs, kind) < segs.len() {
            assert(segs.drop_first()[first_match(segs, kind) - 1]
                == lir::TextSegmentView::Emphasis(kind));
        }
    }
}

/// A position `j` with no matching marker before it and a matching marker
/// (or the end) at it is the first matching position.
pub proof fn lemma_first_match_is(segs: Seq<lir::TextSegmentView>, kind: Emphasis, j: int)
    requires
        0 <= j <= segs.len(),
        forall|i: int| 0 <= i < j ==> segs[i] != lir::TextSegmentView::Emphasis(kind),
        j < segs.len() ==> segs[j] == lir::TextSegmentView::Emphasis(kind),
    ensures
        first_match(segs, kind) == j,
    decreases segs.len(),
{
    if j == 0 {
    } else {
        assert forall|i: int|
            0 <= i < j - 1 implies segs.drop_first()[i] != lir::TextSegmentView::Emphasis(
            kind,
        ) by {
            assert(segs[i + 1] != lir::TextSegmentView::Emphasis(kind));
        }
        if j - 1 < segs.drop_first().len() {
            assert(segs.drop_first()[j - 1] == segs[j]);
        }
        lemma_first_match_is(segs.drop_first(), kind, j - 1);
    }
}

/// Emphasis resolution: scanning left to right, a marker pairs with the
/// nearest following marker of the same kind, wrapping what lies strictly
/// between them (recursively resolved); a marker with no later partner
/// degrades to its literal delimiter text.
pub open spec fn resolve(segs: Seq<lir::TextSegmentView>) -> Seq<hir::TextSegmentView>
    decreases segs.len(),
{
    if segs.len() == 0 {
        Seq::empty()
    } else {
        match segs[0] {
            lir::TextSegmentView::Text(t) => seq![hir::TextSegmentView::Text(t)] + resolve(
                segs.drop_first(),
            ),
            lir::TextSegmentView::Break => seq![hir::TextSegmentView::Break] + resolve(
                segs.drop_first(),
            ),
            lir::TextSegmentView::Emphasis(kind) => {
                let rest = segs.drop_first();
                let j = first_match(rest, kind);
                proof {
                    lemma_first_match(rest, kind);
                }
                if j < rest.len() {
                    seq![hir::TextSegmentView::Emphasised(kind, resolve(rest.take(j)))] + resolve(
                        rest.skip(j + 1),
                    )
                } else {
                    seq![hir::TextSegmentView::Text(delim_text(kind))] + resolve(rest)
                }
            },
        }
    }
}

// ---------------------------------------------------------------------------
// Statement grouping
// ---------------------------------------------------------------------------

/// Number of consecutive paragraph statements starting at `i`.
pub open spec fn para_run(stmts: Seq<lir::StatementView>, i: int) -> int
    decreases stmts.len() - i,
{
    if i < 0 || i >= stmts.len() {
        0
    } else if stmts[i] matches lir::StatementView::Paragraph(_) {
        1 + para_run(stmts, i + 1)
    } else {
        0
    }
}

pub proof fn lemma_para_run(stmts: Seq<lir::StatementView>, i: int)
    requires
        0 <= i <= stmts.len(),
    ensures
        0 <= para_run(stmts, i) <= stmts.len() - i,
        forall|k: int|
            i <= k < i + para_run(stmts, i) ==> (#[trigger] stmts[k])
                matches lir::StatementView::Paragraph(_),
        i + para_run(stmts, i) < stmts.len() ==> !(stmts[i + para_run(stmts, i)]
            matches lir::StatementView::Paragraph(_)),
    decreases stmts.len() - i,
{
    if i < stmts.len() && stmts[i] matches lir::StatementView::Paragraph(_) {
        lemma_para_run(stmts, i + 1);
    }
}

/// A line-level statement that belongs to a list run: a list item or a
/// paragraph (the latter a lazy continuation of the item before it).
pub open spec fn is_list_entry(s: lir::StatementView) -> bool {
    s matches lir::StatementView::ListItem(_, _) || s matches lir::StatementView::Paragraph(_)
}

/// Number of consecutive list-run statements starting at `i`.
pub open spec fn list_run(stmts: Seq<lir::StatementView>, i: int) -> int
    decreases stmts.len() - i,
{
    if i < 0 || i >= stmts.len() {
        0
    } else if is_list_entry(stmts[i]) {
        1 + list_run(stmts, i + 1)
    } else {
        0
    }
}

pub proof fn lemma_list_run(stmts: Seq<lir::StatementView>, i: int)
    requires
        0 <= i <= stmts.len(),
    ensures
        0 <= list_run(stmts, i) <= stmts.len() - i,
        forall|k: int| i <= k < i + list_run(stmts, i) ==> is_list_entry(stmts[k]),
        i + list_run(stmts, i) < stmts.len() ==> !is_list_entry(stmts[i + list_run(stmts, i)]),
    decreases stmts.len() - i,
{
    if i < stmts.len() && is_list_entry(stmts[i]) {
        lemma_list_run(stmts, i + 1);
    }
}

/// The text of a paragraph statement.
pub open spec fn para_text(s: lir::StatementView) -> Seq<lir::TextSegmentView> {
    match s {
        lir::StatementView::Paragraph(t) => t,
        _ => Seq::empty(),
    }
}

/// The unresolved segments of the paragraph statements `stmts[i..i+n)`,
/// joined with a line break between each pair.
pub open spec fn merge_paras(stmts: Seq<lir::StatementView>, i: int, n: int) -> Seq<
    lir::TextSegmentView,
>
    decreases n,
{
    if n <= 0 || i < 0 || i >= stmts.len() {
        Seq::empty()
    } else if n == 1 {
        para_text(stmts[i])
    } else {
        para_text(stmts[i]) + seq![lir::TextSegmentView::Break] + merge_paras(stmts, i + 1, n - 1)
    }
}

/// The lazy-continuation tail of a list item: a leading line break and
/// the paragraph's text, for each of the `n` paragraphs from `i` on.
pub open spec fn cont_text(stmts: Seq<lir::StatementView>, i: int, n: int) -> Seq<
    lir::TextSegmentView,
>
    decreases n,
{
    if n <= 0 || i < 0 || i >= stmts.len() {
        Seq::empty()
    } else {
        seq![lir::TextSegmentView::Break] + para_text(stmts[i]) + cont_text(stmts, i + 1, n - 1)
    }
}

/// One list item of a run, its continuations merged in: its indentation
/// and its full unresolved text.
pub struct ItemEntry {
    pub indentation: int,
    pub segments: Seq<lir::TextSegmentView>,
}

/// The items of a list run, from entry `i` on: each list-item statement
/// together with the text of its lazy continuations, in order.
pub open spec fn merge_items(entries: Seq<lir::StatementView>, i: int) -> Seq<ItemEntry>
    decreases entries.len() - i,
{
    if i < 0 || i >= entries.len() {
        Seq::empty()
    } else {
        match entries[i] {
            lir::StatementView::ListItem(ind, t) => {
                let k = para_run(entries, i + 1);
                proof {
                    lemma_para_run(entries, i + 1);
                }
                seq![
                    ItemEntry { indentation: ind as int, segments: t + cont_text(entries, i + 1, k) },
                ] + merge_items(entries, i + 1 + k)
            },
            _ => merge_items(entries, i + 1),
        }
    }
}

// ---------------------------------------------------------------------------
// List nesting
// ---------------------------------------------------------------------------

/// Position of the first item at or after `from` whose indentation is
/// below `threshold` (or `items.len()` when there is none).
pub open spec fn first_below(items: Seq<ItemEntry>, from: int, threshold: int) -> int
    decreases items.len() - from,
{
    if from < 0 || from >= items.len() {
        items.len() as int
    } else if items[from].indentation < threshold {
        from
    } else {
        first_below(items, from + 1, threshold)
    }
}

pub proof fn lemma_first_below(items: Seq<ItemEntry>, from: int, threshold: int)
    requires
        0 <= from <= items.len(),
    ensures
        from <= first_below(items, from, threshold) <= items.len(),
        forall|k: int|
            from <= k < first_below(items, from, threshold) ==> items[k].indentation >= threshold,
        first_below(items, from, threshold) < items.len() ==> items[first_below(
            items,
            from,
            threshold,
        )].indentation < threshold,
    decreases items.len() - from,
{
    if from < items.len() && items[from].indentation >= threshold {
        lemma_first_below(items, from + 1, threshold);
    }
}

/// List nesting: an item whose successor is indented at least two columns
/// deeper opens a child list, which extends until the first item indented
/// less than that successor; any smaller increase keeps items siblings.
pub open spec fn build_list(items: Seq<ItemEntry>) -> Seq<hir::ListItemView>
    decreases items.len(),
{
    if items.len() == 0 {
        Seq::empty()
    } else if items.len() >= 2 && items[1].indentation >= items[0].indentation + 2 {
        let e = first_below(items, 2, items[1].indentation);
        proof {
            lemma_first_below(items, 2, items[1].indentation);
        }
        seq![
            hir::ListItemView {
                text: resolve(items[0].segments),
                child: Some(build_list(items.subrange(1, e))),
            },
        ] + build_list(items.skip(e))
    } else {
        seq![hir::ListItemView { text: resolve(items[0].segments), child: None }] + build_list(
            items.skip(1),
        )
    }
}

// ---------------------------------------------------------------------------
// Lowering
// ---------------------------------------------------------------------------

/// Lowering of the statement tail `stmts[i..]`: blank lines and comments
/// vanish, headers lower directly, paragraph runs merge into one
/// paragraph, and list runs (items with their lazy continuations) nest
/// into one list.
pub open spec fn lower_from(stmts: Seq<lir::StatementView>, i: int) -> Seq<hir::StatementView>
    decreases stmts.len() - i,
{
    if i < 0 || i >= stmts.len() {
        Seq::empty()
    } else {
        match stmts[i] {
            lir::StatementView::EmptyLine => lower_from(stmts, i + 1),
            lir::StatementView::Comment(_) => lower_from(stmts, i + 1),
            lir::StatementView::Header(ht, t) => seq![hir::StatementView::Header(ht, resolve(t))]
                + lower_from(stmts, i + 1),
            lir::StatementView::Paragraph(_) => {
                let n = para_run(stmts, i);
                proof {
                    lemma_para_run(stmts, i);
                }
                seq![hir::StatementView::Paragraph(resolve(merge_paras(stmts, i, n)))] + lower_from(
                    stmts,
                    i + n,
                )
            },
            lir::StatementView::ListItem(_, _) => {
                let n = list_run(stmts, i);
                proof {
                    lemma_list_run(stmts, i);
                }
                seq![
                    hir::StatementView::List(build_list(merge_items(stmts.subrange(i, i + n), 0))),
                ] + lower_from(stmts, i + n)
            },
        }
    }
}

/// The whole lowering: a total function of the line-level tree.
pub open spec fn lower(stmts: Seq<lir::StatementView>) -> Seq<hir::StatementView> {
    lower_from(stmts, 0)
}

// ---------------------------------------------------------------------------
// Laws of the lowering
// ---------------------------------------------------------------------------

/// The unresolved merge of single-literal paragraph texts `ts`: the
/// literals in order, one line break between each pair.
pub open spec fn interleaved_lir(ts: Seq<Seq<char>>) -> Seq<lir::TextSegmentView> {
    Seq::new(
        (2 * ts.len() - 1) as nat,
        |j: int|
            if j % 2 == 0 {
                lir::TextSegmentView::Text(ts[j / 2])
            } else {
                lir::TextSegmentView::Break
            },
    )
}

/// The resolved form of the same merge.
pub open spec fn interleaved_hir(ts: Seq<Seq<char>>) -> Seq<hir::TextSegmentView> {
    Seq::new(
        (2 * ts.len() - 1) as nat,
        |j: int|
            if j % 2 == 0 {
                hir::TextSegmentView::Text(ts[j / 2])
            } else {
                hir::TextSegmentView::Break
            },
    )
}

proof fn lemma_merge_paras_single_literals(
    stmts: Seq<lir::StatementView>,
    i: int,
    ts: Seq<Seq<char>>,
)
    requires
        0 <= i,
        ts.len() >= 1,
        i + ts.len() <= stmts.len(),
        forall|k: int|
            0 <= k < ts.len() ==> stmts[i + k] == lir::StatementView::Paragraph(
                seq![lir::TextSegmentView::Text(ts[k])],
            ),
    ensures
        merge_paras(stmts, i, ts.len() as int) == interleaved_lir(ts),
    decreases ts.len(),
{
    assert(stmts[i] == lir::StatementView::Paragraph(seq![lir::TextSegmentView::Text(ts[0])]));
    if ts.len() == 1 {
        assert(merge_paras(stmts, i, 1) =~= interleaved_lir(ts));
    } else {
        let ts2 = ts.drop_first();
        assert forall|k: int|
            0 <= k < ts2.len() implies stmts[i + 1 + k] == lir::StatementView::Paragraph(
            seq![lir::TextSegmentView::Text(ts2[k])],
        ) by {
            assert(stmts[i + (k + 1)] == lir::StatementView::Paragraph(
                seq![lir::TextSegmentView::Text(ts[k + 1])],
            ));
        }
        lemma_merge_paras_single_literals(stmts, i + 1, ts2);
        assert(merge_paras(stmts, i, ts.len() as int) =~= interleaved_lir(ts));
    }
}

/// A sequence without emphasis markers resolves segment by segment.
proof fn lemma_resolve_no_markers(segs: Seq<lir::TextSegmentView>)
    requires
        forall|k: int|
            0 <= k < segs.len() ==> !((#[trigger] segs[k])
                matches lir::TextSegmentView::Emphasis(_)),
    ensures
        resolve(segs) == Seq::new(
            segs.len(),
            |k: int|
                match segs[k] {
                    lir::TextSegmentView::Text(t) => hir::TextSegmentView::Text(t),
                    _ => hir::TextSegmentView::Break,
                },
        ),
    decreases segs.len(),
{
    if segs.len() > 0 {
        assert(!(segs[0] matches lir::TextSegmentView::Emphasis(_)));
        lemma_resolve_no_markers(segs.drop_first());
        assert(resolve(segs) =~= Seq::new(
            segs.len(),
            |k: int|
                match segs[k] {
                    lir::TextSegmentView::Text(t) => hir::TextSegmentView::Text(t),
                    _ => hir::TextSegmentView::Break,
                },
        ));
    }
}

/// Paragraph merge: a run of `N >= 1` consecutive paragraph lines, each a
/// single literal, with no blank line between them, lowers to exactly one
/// paragraph holding the `N` literals in their original order with `N - 1`
/// line breaks between them.
pub proof fn lemma_paragraph_merge(stmts: Seq<lir::StatementView>, i: int, ts: Seq<Seq<char>>)
    requires
        0 <= i,
        ts.len() >= 1,
        i + ts.len() <= stmts.len(),
        forall|k: int|
            0 <= k < ts.len() ==> stmts[i + k] == lir::StatementView::Paragraph(
                seq![lir::TextSegmentView::Text(ts[k])],
            ),
        i + ts.len() < stmts.len() ==> !(stmts[i + ts.len()]
            matches lir::StatementView::Paragraph(_)),
    ensures
        lower_from(stmts, i) == seq![hir::StatementView::Paragraph(interleaved_hir(ts))]
            + lower_from(stmts, i + ts.len()),
{
    let n = ts.len() as int;
    assert forall|k: int| i <= k < i + n implies (#[trigger] stmts[k])
        matches lir::StatementView::Paragraph(_) by {
        assert(stmts[i + (k - i)] == lir::StatementView::Paragraph(
            seq![lir::TextSegmentView::Text(ts[k - i])],
        ));
    }
    lemma_para_run_is(stmts, i, n);
    lemma_merge_paras_single_literals(stmts, i, ts);
    assert forall|k: int|
        0 <= k < interleaved_lir(ts).len() implies !((#[trigger] interleaved_lir(ts)[k])
        matches lir::TextSegmentView::Emphasis(_)) by {}
    lemma_resolve_no_markers(interleaved_lir(ts));
    assert(resolve(interleaved_lir(ts)) =~= interleaved_hir(ts));
    assert(stmts[i] matches lir::StatementView::Paragraph(_));
}

/// `t` occurs as a literal segment of the unresolved text `src`.
pub open spec fn is_input_literal(t: Seq<char>, src: Seq<lir::TextSegmentView>) -> bool {
    exists|k: int| 0 <= k < src.len() && src[k] == lir::TextSegmentView::Text(t)
}

/// `t` is the delimiter text of some emphasis kind.
pub open spec fn is_delim_literal(t: Seq<char>) -> bool {
    t == delim_text(Emphasis::Bold) || t == delim_text(Emphasis::Italic) || t == delim_text(
        Emphasis::Strikethrough,
    )
}

/// Every literal of the (resolved) segment, at any nesting depth, is a
/// literal of `src` or a delimiter text.
pub open spec fn seg_literals_from(seg: hir::TextSegmentView, src: Seq<lir::TextSegmentView>) -> bool
    decreases seg,
{
    match seg {
        hir::TextSegmentView::Text(t) => is_input_literal(t, src) || is_delim_literal(t),
        hir::TextSegmentView::Break => true,
        hir::TextSegmentView::Emphasised(_, inner) => segs_literals_from(inner, src),
    }
}

/// Every literal of the (resolved) segments, at any nesting depth, is a
/// literal of `src` or a delimiter text.
pub open spec fn segs_literals_from(
    segs: Seq<hir::TextSegmentView>,
    src: Seq<lir::TextSegmentView>,
) -> bool
    decreases segs,
{
    segs.len() == 0 || (seg_literals_from(segs[0], src) && segs_literals_from(
        segs.drop_first(),
        src,
    ))
}

proof fn lemma_seg_literals_mono(
    seg: hir::TextSegmentView,
    a: Seq<lir::TextSegmentView>,
    b: Seq<lir::TextSegmentView>,
)
    requires
        seg_literals_from(seg, a),
        forall|t: Seq<char>| #[trigger] is_input_literal(t, a) ==> is_input_literal(t, b),
    ensures
        seg_literals_from(seg, b),
    decreases seg,
{
    match seg {
        hir::TextSegmentView::Emphasised(_, inner) => {
            lemma_segs_literals_mono(inner, a, b);
        },
        _ => {},
    }
}

proof fn lemma_segs_literals_mono(
    segs: Seq<hir::TextSegmentView>,
    a: Seq<lir::TextSegmentView>,
    b: Seq<lir::TextSegmentView>,
)
    requires
        segs_literals_from(segs, a),
        forall|t: Seq<char>| #[trigger] is_input_literal(t, a) ==> is_input_literal(t, b),
    ensures
        segs_literals_from(segs, b),
    decreases segs,
{
    if segs.len() > 0 {
        lemma_seg_literals_mono(segs[0], a, b);
        lemma_segs_literals_mono(segs.drop_first(), a, b);
    }
}

proof fn lemma_segs_literals_concat(
    x: Seq<hir::TextSegmentView>,
    y: Seq<hir::TextSegmentView>,
    src: Seq<lir::TextSegmentView>,
)
    requires
        segs_literals_from(x, src),
        segs_literals_from(y, src),
    ensures
        segs_literals_from(x + y, src),
    decreases x.len(),
{
    if x.len() == 0 {
        assert(x + y =~= y);
    } else {
        lemma_segs_literals_concat(x.drop_first(), y, src);
        assert((x + y).drop_first() =~= x.drop_first() + y);
        assert((x + y)[0] == x[0]);
    }
}

/// Any subrange's literals are literals of the whole.
proof fn lemma_input_literal_subrange(src: Seq<lir::TextSegmentView>, lo: int, hi: int)
    requires
        0 <= lo <= hi <= src.len(),
    ensures
        forall|t: Seq<char>|
            #[trigger] is_input_literal(t, src.subrange(lo, hi)) ==> is_input_literal(t, src),
{
    assert forall|t: Seq<char>|
        #[trigger] is_input_literal(t, src.subrange(lo, hi)) implies is_input_literal(
        t,
        src,
    ) by {
        let k = choose|k: int|
            0 <= k < src.subrange(lo, hi).len() && src.subrange(lo, hi)[k]
                == lir::TextSegmentView::Text(t);
        assert(src[lo + k] == lir::TextSegmentView::Text(t));
    }
}

/// Emphasis resolution invents no literal text: every literal of the
/// resolved segments, at any nesting depth, is a literal of the input or
/// the two-character delimiter text of an unmatched marker.  (Together
/// with the front end's trimming, no trimmed whitespace can reappear in
/// the document tree.)
pub proof fn lemma_resolve_literals(segs: Seq<lir::TextSegmentView>)
    ensures
        segs_literals_from(resolve(segs), segs),
    decreases segs.len(),
{
    if segs.len() == 0 {
    } else {
        let rest = segs.drop_first();
        assert(rest =~= segs.subrange(1, segs.len() as int));
        lemma_input_literal_subrange(segs, 1, segs.len() as int);
        match segs[0] {
            lir::TextSegmentView::Text(t) => {
                lemma_resolve_literals(rest);
                lemma_segs_literals_mono(resolve(rest), rest, segs);
                let head = hir::TextSegmentView::Text(t);
                assert(is_input_literal(t, segs)) by {
                    assert(segs[0] == lir::TextSegmentView::Text(t));
                }
                lemma_one_seg_literal(head, segs);
                lemma_segs_literals_concat(seq![head], resolve(rest), segs);
            },
            lir::TextSegmentView::Break => {
                lemma_resolve_literals(rest);
                lemma_segs_literals_mono(resolve(rest), rest, segs);
                lemma_one_seg_literal(hir::TextSegmentView::Break, segs);
                lemma_segs_literals_concat(seq![hir::TextSegmentView::Break], resolve(rest), segs);
            },
            lir::TextSegmentView::Emphasis(kind) => {
                let j = first_match(rest, kind);
                lemma_first_match(rest, kind);
                if j < rest.len() {
                    assert(rest.take(j) =~= segs.subrange(1, j + 1));
                    assert(rest.skip(j + 1) =~= segs.subrange(j + 2, segs.len() as int));
                    lemma_resolve_literals(rest.take(j));
                    lemma_input_literal_subrange(segs, 1, j + 1);
                    lemma_segs_literals_mono(resolve(rest.take(j)), rest.take(j), segs);
                    lemma_resolve_literals(rest.skip(j + 1));
                    lemma_input_literal_subrange(segs, j + 2, segs.len() as int);
                    lemma_segs_literals_mono(resolve(rest.skip(j + 1)), rest.skip(j + 1), segs);
                    let head = hir::TextSegmentView::Emphasised(kind, resolve(rest.take(j)));
                    lemma_one_seg_literal(head, segs);
                    lemma_segs_literals_concat(seq![head], resolve(rest.skip(j + 1)), segs);
                } else {
                    lemma_resolve_literals(rest);
                    lemma_segs_literals_mono(resolve(rest), rest, segs);
                    let head = hir::TextSegmentView::Text(delim_text(kind));
                    assert(is_delim_literal(delim_text(kind)));
                    lemma_one_seg_literal(head, segs);
                    lemma_segs_literals_concat(seq![head], resolve(rest), segs);
                }
            },
        }
    }
}

/// A one-segment sequence has the literal-origin property when its
/// segment does.
proof fn lemma_one_seg_literal(seg: hir::TextSegmentView, src: Seq<lir::TextSegmentView>)
    requires
        seg_literals_from(seg, src),
    ensures
        segs_literals_from(seq![seg], src),
{
    assert(seq![seg].drop_first() =~= Seq::<hir::TextSegmentView>::empty());
    assert(segs_literals_from(Seq::<hir::TextSegmentView>::empty(), src));
    assert(seq![seg][0] == seg);
}

/// A list item all of whose descendant lists are non-empty.
pub open spec fn item_lists_nonempty(item: hir::ListItemView) -> bool
    decreases item,
{
    match item.child {
        Some(child) => child.len() >= 1 && items_lists_nonempty(child),
        None => true,
    }
}

/// A list-item sequence all of whose descendant lists are non-empty.
pub open spec fn items_lists_nonempty(items: Seq<hir::ListItemView>) -> bool
    decreases items,
{
    items.len() == 0 || (item_lists_nonempty(items[0]) && items_lists_nonempty(items.drop_first()))
}

proof fn lemma_items_lists_nonempty_index(items: Seq<hir::ListItemView>)
    requires
        items_lists_nonempty(items),
    ensures
        forall|k: int| 0 <= k < items.len() ==> item_lists_nonempty(#[trigger] items[k]),
    decreases items.len(),
{
    if items.len() > 0 {
        lemma_items_lists_nonempty_index(items.drop_first());
        assert forall|k: int| 0 <= k < items.len() implies item_lists_nonempty(
            #[trigger] items[k],
        ) by {
            if k > 0 {
                assert(item_lists_nonempty(items.drop_first()[k - 1]));
            }
        }
    }
}

proof fn lemma_items_lists_nonempty_concat(a: Seq<hir::ListItemView>, b: Seq<hir::ListItemView>)
    requires
        items_lists_nonempty(a),
        items_lists_nonempty(b),
    ensures
        items_lists_nonempty(a + b),
    decreases a.len(),
{
    if a.len() == 0 {
        assert(a + b =~= b);
    } else {
        lemma_items_lists_nonempty_concat(a.drop_first(), b);
        assert((a + b).drop_first() =~= a.drop_first() + b);
        assert((a + b)[0] == a[0]);
    }
}

/// Nesting a non-empty run yields a non-empty list, and every child list
/// it builds is non-empty too.
pub proof fn lemma_build_list_nonempty(items: Seq<ItemEntry>)
    ensures
        items.len() >= 1 ==> build_list(items).len() >= 1,
        items_lists_nonempty(build_list(items)),
    decreases items.len(),
{
    if items.len() == 0 {
    } else if items.len() >= 2 && items[1].indentation >= items[0].indentation + 2 {
        let e = first_below(items, 2, items[1].indentation);
        lemma_first_below(items, 2, items[1].indentation);
        lemma_build_list_nonempty(items.subrange(1, e));
        lemma_build_list_nonempty(items.skip(e));
        let head = hir::ListItemView {
            text: resolve(items[0].segments),
            child: Some(build_list(items.subrange(1, e))),
        };
        assert(item_lists_nonempty(head));
        assert(seq![head].drop_first() =~= Seq::<hir::ListItemView>::empty());
        assert(items_lists_nonempty(Seq::<hir::ListItemView>::empty()));
        assert(seq![head][0] == head);
        assert(items_lists_nonempty(seq![head]));
        lemma_items_lists_nonempty_concat(seq![head], build_list(items.skip(e)));
    } else {
        lemma_build_list_nonempty(items.skip(1));
        let head = hir::ListItemView { text: resolve(items[0].segments), child: None };
        assert(item_lists_nonempty(head));
        assert(seq![head].drop_first() =~= Seq::<hir::ListItemView>::empty());
        assert(items_lists_nonempty(Seq::<hir::ListItemView>::empty()));
        assert(seq![head][0] == head);
        assert(items_lists_nonempty(seq![head]));
        lemma_items_lists_nonempty_concat(seq![head], build_list(items.skip(1)));
    }
}

/// A document-level statement whose lists (if it holds any) are all
/// non-empty.
pub open spec fn stmt_lists_nonempty(s: hir::StatementView) -> bool {
    match s {
        hir::StatementView::List(items) => items.len() >= 1 && items_lists_nonempty(items),
        _ => true,
    }
}

/// A list is never empty once constructed: every list statement the
/// lowering emits holds at least one item, and so does every nested
/// child list.
pub proof fn lemma_lower_no_empty_lists(stmts: Seq<lir::StatementView>, i: int)
    requires
        0 <= i <= stmts.len(),
    ensures
        forall|k: int|
            0 <= k < lower_from(stmts, i).len() ==> stmt_lists_nonempty(
                #[trigger] lower_from(stmts, i)[k],
            ),
    decreases stmts.len() - i,
{
    if i < stmts.len() {
        match stmts[i] {
            lir::StatementView::EmptyLine => {
                lemma_lower_no_empty_lists(stmts, i + 1);
            },
            lir::StatementView::Comment(_) => {
                lemma_lower_no_empty_lists(stmts, i + 1);
            },
            lir::StatementView::Header(ht, t) => {
                lemma_lower_no_empty_lists(stmts, i + 1);
                assert forall|k: int|
                    0 <= k < lower_from(stmts, i).len() implies stmt_lists_nonempty(
                    #[trigger] lower_from(stmts, i)[k],
                ) by {
                    if k > 0 {
                        assert(lower_from(stmts, i)[k] == lower_from(stmts, i + 1)[k - 1]);
                    }
                }
            },
            lir::StatementView::Paragraph(_) => {
                let n = para_run(stmts, i);
                lemma_para_run(stmts, i);
                lemma_lower_no_empty_lists(stmts, i + n);
                assert forall|k: int|
                    0 <= k < lower_from(stmts, i).len() implies stmt_lists_nonempty(
                    #[trigger] lower_from(stmts, i)[k],
                ) by {
                    if k > 0 {
                        assert(lower_from(stmts, i)[k] == lower_from(stmts, i + n)[k - 1]);
                    }
                }
            },
            lir::StatementView::ListItem(_, _) => {
                let n = list_run(stmts, i);
                lemma_list_run(stmts, i);
                lemma_lower_no_empty_lists(stmts, i + n);
                let entries = stmts.subrange(i, i + n);
                assert(entries[0] == stmts[i]);
                assert(merge_items(entries, 0).len() >= 1);
                lemma_build_list_nonempty(merge_items(entries, 0));
                assert forall|k: int|
                    0 <= k < lower_from(stmts, i).len() implies stmt_lists_nonempty(
                    #[trigger] lower_from(stmts, i)[k],
                ) by {
                    if k > 0 {
                        assert(lower_from(stmts, i)[k] == lower_from(stmts, i + n)[k - 1]);
                    }
                }
            },
        }
    }
}

/// List nesting threshold, nesting half: an item whose successor is
/// indented at least two columns deeper always opens a child list.
pub proof fn lemma_indent_step_nests(items: Seq<ItemEntry>)
    requires
        items.len() >= 2,
        items[1].indentation >= items[0].indentation + 2,
    ensures
        build_list(items).len() >= 1,
        build_list(items)[0] == (hir::ListItemView {
            text: resolve(items[0].segments),
            child: Some(build_list(items.subrange(1, first_below(items, 2, items[1].indentation)))),
        }),
{
    lemma_first_below(items, 2, items[1].indentation);
}

/// List nesting threshold, sibling half: when no item of a run is
/// indented two or more columns deeper than the item before it, the run
/// stays flat, one sibling item per entry in the original order, none
/// with a child list.
pub proof fn lemma_list_stays_flat(items: Seq<ItemEntry>)
    requires
        forall|k: int|
            0 <= k < items.len() - 1 ==> (#[trigger] items[k + 1]).indentation < items[k].indentation
                + 2,
    ensures
        build_list(items) == Seq::new(
            items.len(),
            |k: int| hir::ListItemView { text: resolve(items[k].segments), child: None },
        ),
    decreases items.len(),
{
    if items.len() > 0 {
        if items.len() >= 2 {
            assert(items[0int + 1].indentation < items[0int].indentation + 2);
        }
        let rest = items.skip(1);
        assert forall|k: int|
            0 <= k < rest.len() - 1 implies (#[trigger] rest[k + 1]).indentation
            < rest[k].indentation + 2 by {
            assert(items[(k + 1) + 1].indentation < items[k + 1].indentation + 2);
        }
        lemma_list_stays_flat(rest);
        assert(build_list(items) =~= Seq::new(
            items.len(),
            |k: int| hir::ListItemView { text: resolve(items[k].segments), child: None },
        ));
    }
}

// ---------------------------------------------------------------------------
// View algebra
// ---------------------------------------------------------------------------

proof fn lemma_lir_segments_view_concat(a: Seq<lir::TextSegment>, b: Seq<lir::TextSegment>)
    ensures
        lir::segments_view(a + b) == lir::segments_view(a) + lir::segments_view(b),
{
    assert(lir::segments_view(a + b) =~= lir::segments_view(a) + lir::segments_view(b));
}

proof fn lemma_hir_segments_view_concat(a: Seq<hir::TextSegment>, b: Seq<hir::TextSegment>)
    ensures
        hir::segments_view(a + b) == hir::segments_view(a) + hir::segments_view(b),
    decreases a.len(),
{
    if a.len() == 0 {
        assert(a + b =~= b);
        assert(hir::segments_view(a) =~= Seq::<hir::TextSegmentView>::empty());
    } else {
        lemma_hir_segments_view_concat(a.drop_first(), b);
        assert((a + b).drop_first() =~= a.drop_first() + b);
        assert((a + b)[0] == a[0]);
        assert(hir::segments_view(a + b) =~= hir::segments_view(a) + hir::segments_view(b));
    }
}

proof fn lemma_hir_segments_view_one(s: Seq<hir::TextSegment>)
    requires
        s.len() == 1,
    ensures
        hir::segments_view(s) == seq![hir::seg_view(s[0])],
{
    assert(s.drop_first() =~= Seq::<hir::TextSegment>::empty());
    assert(hir::segments_view(s.drop_first()) =~= Seq::<hir::TextSegmentView>::empty());
    assert(hir::segments_view(s) =~= seq![hir::seg_view(s[0])]);
}

proof fn lemma_items_view_one(s: Seq<hir::ListItem>)
    requires
        s.len() == 1,
    ensures
        hir::items_view(s) == seq![hir::item_view(s[0])],
{
    assert(s.drop_first() =~= Seq::<hir::ListItem>::empty());
    assert(hir::items_view(s.drop_first()) =~= Seq::<hir::ListItemView>::empty());
    assert(hir::items_view(s) =~= seq![hir::item_view(s[0])]);
}

proof fn lemma_items_view_concat(a: Seq<hir::ListItem>, b: Seq<hir::ListItem>)
    ensures
        hir::items_view(a + b) == hir::items_view(a) + hir::items_view(b),
    decreases a.len(),
{
    if a.len() == 0 {
        assert(a + b =~= b);
        assert(hir::items_view(a) =~= Seq::<hir::ListItemView>::empty());
    } else {
        lemma_items_view_concat(a.drop_first(), b);
        assert((a + b).drop_first() =~= a.drop_first() + b);
        assert((a + b)[0] == a[0]);
        assert(hir::items_view(a + b) =~= hir::items_view(a) + hir::items_view(b));
    }
}

proof fn lemma_hir_statements_view_concat(a: Seq<hir::Statement>, b: Seq<hir::Statement>)
    ensures
        hir::statements_view(a + b) == hir::statements_view(a) + hir::statements_view(b),
{
    assert(hir::statements_view(a + b) =~= hir::statements_view(a) + hir::statements_view(b));
}

/// `para_run` is the length of any all-paragraph run bounded on the
/// right.
pub proof fn lemma_para_run_is(stmts: Seq<lir::StatementView>, i: int, n: int)
    requires
        0 <= i,
        0 <= n,
        i + n <= stmts.len(),
        forall|k: int| i <= k < i + n ==> (#[trigger] stmts[k]) matches lir::StatementView::Paragraph(_),
        i + n < stmts.len() ==> !(stmts[i + n] matches lir::StatementView::Paragraph(_)),
    ensures
        para_run(stmts, i) == n,
    decreases n,
{
    if n == 0 {
    } else {
        assert(stmts[i] matches lir::StatementView::Paragraph(_));
        lemma_para_run_is(stmts, i + 1, n - 1);
    }
}

/// `list_run` is the length of any all-list-entry run bounded on the
/// right.
pub proof fn lemma_list_run_is(stmts: Seq<lir::StatementView>, i: int, n: int)
    requires
        0 <= i,
        0 <= n,
        i + n <= stmts.len(),
        forall|k: int| i <= k < i + n ==> is_list_entry(#[trigger] stmts[k]),
        i + n < stmts.len() ==> !is_list_entry(stmts[i + n]),
    ensures
        list_run(stmts, i) == n,
    decreases n,
{
    if n == 0 {
    } else {
        lemma_list_run_is(stmts, i + 1, n - 1);
    }
}

// ---------------------------------------------------------------------------
// Copying helpers
// ---------------------------------------------------------------------------

/// A fresh copy of one line-level segment.
fn copy_segment(seg: &lir::TextSegment) -> (r: lir::TextSegment)
    ensures
        r == *seg,
{
    match seg {
        lir::TextSegment::Text(s) => lir::TextSegment::Text(s.clone()),
        lir::TextSegment::Break => lir::TextSegment::Break,
        lir::TextSegment::Emphasis(e) => lir::TextSegment::Emphasis(*e),
    }
}

/// A fresh copy of a line-level segment sequence.
fn copy_segments(v: &Vec<lir::TextSegment>) -> (r: Vec<lir::TextSegment>)
    ensures
        r@ == v@,
{
    let mut r = Vec::new();
    let mut i: usize = 0;
    while i < v.len()
        invariant
            0 <= i <= v@.len(),
            r@ == v@.take(i as int),
        decreases v@.len() - i,
    {
        r.push(copy_segment(&v[i]));
        proof {
            assert(r@ =~= v@.take(i + 1));
        }
        i += 1;
    }
    proof {
        assert(v@.take(v@.len() as int) =~= v@);
    }
    r
}

// ---------------------------------------------------------------------------
// Executable emphasis resolution
// ---------------------------------------------------------------------------

/// Whether `seg` is an emphasis marker of kind `kind`.
fn seg_is_marker(seg: &lir::TextSegment, kind: Emphasis) -> (r: bool)
    ensures
        r == (seg@ == lir::TextSegmentView::Emphasis(kind)),
{
    match seg {
        lir::TextSegment::Emphasis(e) => *e == kind,
        _ => false,
    }
}

/// Position of the first marker of kind `kind` in `v[from..to)` (or `to`
/// when there is none).
fn scan_match(v: &Vec<lir::TextSegment>, from: usize, to: usize, kind: Emphasis) -> (j: usize)
    requires
        from <= to <= v@.len(),
    ensures
        from <= j <= to,
        j - from == first_match(
            lir::segments_view(v@).subrange(from as int, to as int),
            kind,
        ),
        j < to ==> v@[j as int]@ == lir::TextSegmentView::Emphasis(kind),
{
    let mut i = from;
    while i < to && !seg_is_marker(&v[i], kind)
        invariant
            from <= i <= to,
            to <= v@.len(),
            forall|k: int| from <= k < i ==> v@[k]@ != lir::TextSegmentView::Emphasis(kind),
        decreases to - i,
    {
        i += 1;
    }
    proof {
        let sub = lir::segments_view(v@).subrange(from as int, to as int);
        assert forall|k: int|
            0 <= k < i - from implies sub[k] != lir::TextSegmentView::Emphasis(kind) by {
            assert(sub[k] == v@[from + k]@);
        }
        if i < to {
            assert(sub[i - from] == v@[i as int]@);
        }
        lemma_first_match_is(sub, kind, i - from);
    }
    i
}

/// Resolve the emphasis markers of `v[from..to)` into nested spans.
fn resolve_range(v: &Vec<lir::TextSegment>, from: usize, to: usize) -> (r: Vec<hir::TextSegment>)
    requires
        from <= to <= v@.len(),
    ensures
        hir::segments_view(r@) == resolve(
            lir::segments_view(v@).subrange(from as int, to as int),
        ),
    decreases to - from,
{
    let ghost s = lir::segments_view(v@).subrange(from as int, to as int);
    if from == to {
        let r = Vec::<hir::TextSegment>::new();
        proof {
            assert(hir::segments_view(r@) =~= resolve(s));
        }
        return r;
    }
    proof {
        assert(s[0] == v@[from as int]@);
        assert(s.drop_first() =~= lir::segments_view(v@).subrange(from + 1, to as int));
    }
    match &v[from] {
        lir::TextSegment::Text(t) => {
            let mut r = Vec::new();
            r.push(hir::TextSegment::Text(t.clone()));
            let ghost head = r@;
            let mut rest = resolve_range(v, from + 1, to);
            let ghost rest_view = rest@;
            r.append(&mut rest);
            proof {
                lemma_hir_segments_view_concat(head, rest_view);
                lemma_hir_segments_view_one(head);
                assert(hir::seg_view(head[0]) == hir::TextSegmentView::Text(t@));
            }
            r
        },
        lir::TextSegment::Break => {
            let mut r = Vec::new();
            r.push(hir::TextSegment::Break);
            let ghost head = r@;
            let mut rest = resolve_range(v, from + 1, to);
            let ghost rest_view = rest@;
            r.append(&mut rest);
            proof {
                lemma_hir_segments_view_concat(head, rest_view);
                lemma_hir_segments_view_one(head);
                assert(hir::seg_view(head[0]) == hir::TextSegmentView::Break);
            }
            r
        },
        lir::TextSegment::Emphasis(e) => {
            let kind = *e;
            let j = scan_match(v, from + 1, to, kind);
            let ghost rest_s = s.drop_first();
            proof {
                lemma_first_match(rest_s, kind);
                assert(first_match(rest_s, kind) == j - (from + 1));
            }
            if j < to {
                let inner = resolve_range(v, from + 1, j);
                let mut r = Vec::new();
                r.push(hir::TextSegment::Emphasised { emphasis: kind, inner });
                let ghost head = r@;
                let mut rest = resolve_range(v, j + 1, to);
                let ghost rest_view = rest@;
                r.append(&mut rest);
                proof {
                    lemma_hir_segments_view_concat(head, rest_view);
                    let jj = j - (from + 1);
                    assert(rest_s.take(jj) =~= lir::segments_view(v@).subrange(
                        from + 1,
                        j as int,
                    ));
                    assert(rest_s.skip(jj + 1) =~= lir::segments_view(v@).subrange(
                        j + 1,
                        to as int,
                    ));
                    lemma_hir_segments_view_one(head);
                    assert(hir::seg_view(head[0]) == hir::TextSegmentView::Emphasised(
                        kind,
                        resolve(rest_s.take(jj)),
                    ));
                }
                r
            } else {
                let lit: &str = match kind {
                    Emphasis::Bold => "**",
                    Emphasis::Italic => "__",
                    Emphasis::Strikethrough => "~~",
                };
                let mut r = Vec::new();
                r.push(hir::TextSegment::Text(String::from_str(lit)));
                let ghost head = r@;
                let mut rest = resolve_range(v, from + 1, to);
                let ghost rest_view = rest@;
                r.append(&mut rest);
                proof {
                    lemma_hir_segments_view_concat(head, rest_view);
                    assert(lit@ == delim_text(kind));
                    lemma_hir_segments_view_one(head);
                    assert(hir::seg_view(head[0]) == hir::TextSegmentView::Text(delim_text(kind)));
                }
                r
            }
        },
    }
}

/// Resolve a whole segment sequence into nested emphasis spans.  The
/// resolution is total: every marker either pairs or degrades to literal
/// text, so this always succeeds.
pub fn parse_text_segments(segments_lir: &Vec<lir::TextSegment>) -> (r: Result<
    Vec<hir::TextSegment>,
>)
    ensures
        r matches Ok(v) && hir::segments_view(v@) == resolve(lir::segments_view(segments_lir@)),
{
    let v = resolve_range(segments_lir, 0, segments_lir.len());
    proof {
        assert(lir::segments_view(segments_lir@).subrange(
            0,
            segments_lir@.len() as int,
        ) =~= lir::segments_view(segments_lir@));
    }
    Ok(v)
}

/// Lower one header statement: its level is kept and its text resolved.
pub fn parse_header_statement(header_statement: &lir::HeaderStatement) -> (r: Result<
    hir::HeaderStatement,
>)
    ensures
        r matches Ok(h) && h.header_type == header_statement.header_type && h.text@ == resolve(
            header_statement.text@,
        ),
{
    let segments = match parse_text_segments(&header_statement.text.segments) {
        Ok(v) => v,
        Err(e) => match e {
            Error::Lowering => {
                proof {
                    assert(false);
                }
                Vec::new()
            },
        },
    };
    Ok(hir::HeaderStatement {
        header_type: header_statement.header_type,
        text: hir::Text { segments },
    })
}

// ---------------------------------------------------------------------------
// Executable paragraph merging
// ---------------------------------------------------------------------------

/// The unresolved segments of a paragraph sequence, joined with a line
/// break between each pair.
pub open spec fn merged_para_texts(ps: Seq<lir::ParagraphStatement>) -> Seq<lir::TextSegmentView>
    decreases ps.len(),
{
    if ps.len() == 0 {
        Seq::empty()
    } else if ps.len() == 1 {
        ps[0].text@
    } else {
        ps[0].text@ + seq![lir::TextSegmentView::Break] + merged_para_texts(ps.drop_first())
    }
}

/// Concatenate the texts of `paragraphs[k..]`, a line break between each
/// pair.
fn merge_paras_from(paragraphs: &Vec<lir::ParagraphStatement>, k: usize) -> (r: Vec<
    lir::TextSegment,
>)
    requires
        k <= paragraphs@.len(),
    ensures
        lir::segments_view(r@) == merged_para_texts(paragraphs@.skip(k as int)),
    decreases paragraphs@.len() - k,
{
    let ghost ps = paragraphs@.skip(k as int);
    if k == paragraphs.len() {
        let r = Vec::<lir::TextSegment>::new();
        proof {
            assert(lir::segments_view(r@) =~= merged_para_texts(ps));
        }
        return r;
    }
    let mut r = copy_segments(&paragraphs[k].text.segments);
    proof {
        assert(ps[0] == paragraphs@[k as int]);
        assert(lir::segments_view(r@) == ps[0].text@);
    }
    if k + 1 == paragraphs.len() {
        proof {
            assert(ps.len() == 1);
        }
        r
    } else {
        r.push(lir::TextSegment::Break);
        let ghost head = r@;
        let mut rest = merge_paras_from(paragraphs, k + 1);
        let ghost rest_view = rest@;
        r.append(&mut rest);
        proof {
            assert(ps.drop_first() =~= paragraphs@.skip(k + 1));
            lemma_lir_segments_view_concat(head, rest_view);
            assert(lir::segments_view(head) =~= ps[0].text@ + seq![lir::TextSegmentView::Break]);
            assert(lir::segments_view(r@) =~= ps[0].text@ + seq![lir::TextSegmentView::Break]
                + merged_para_texts(ps.drop_first()));
        }
        r
    }
}

/// Lower a run of consecutive paragraph lines into one paragraph: the
/// lines' segments are joined with a line break between each pair, and
/// the joined sequence is resolved once (so emphasis may span lines).
pub fn parse_paragraph_statement(paragraphs: &Vec<lir::ParagraphStatement>) -> (r: Result<
    hir::ParagraphStatement,
>)
    ensures
        r matches Ok(p) && p.text@ == resolve(merged_para_texts(paragraphs@)),
{
    let merged = merge_paras_from(paragraphs, 0);
    let segments = match parse_text_segments(&merged) {
        Ok(v) => v,
        Err(e) => match e {
            Error::Lowering => {
                proof {
                    assert(false);
                }
                Vec::new()
            },
        },
    };
    proof {
        assert(paragraphs@.skip(0) =~= paragraphs@);
    }
    Ok(hir::ParagraphStatement { text: hir::Text { segments } })
}

// ---------------------------------------------------------------------------
// Executable list lowering
// ---------------------------------------------------------------------------

/// One list item of a run during lowering: its indentation and its
/// accumulated unresolved text.
struct RunItem {
    indentation: usize,
    segments: Vec<lir::TextSegment>,
}

spec fn run_items_view(s: Seq<RunItem>) -> Seq<ItemEntry> {
    Seq::new(
        s.len(),
        |i: int|
            ItemEntry {
                indentation: s[i].indentation as int,
                segments: lir::segments_view(s[i].segments@),
            },
    )
}

/// Collect the lazy continuations that follow entry `i` of a list run:
/// for each, a line break and its text.
fn collect_conts(statements: &Vec<lir::Statement>, i: usize) -> (r: (Vec<lir::TextSegment>, usize))
    requires
        i <= statements@.len(),
    ensures
        i <= r.1 <= statements@.len(),
        r.1 - i == para_run(lir::statements_view(statements@), i as int),
        lir::segments_view(r.0@) == cont_text(
            lir::statements_view(statements@),
            i as int,
            r.1 - i,
        ),
    decreases statements@.len() - i,
{
    let ghost sv = lir::statements_view(statements@);
    if i == statements.len() {
        let v = Vec::<lir::TextSegment>::new();
        proof {
            assert(lir::segments_view(v@) =~= cont_text(sv, i as int, 0));
        }
        return (v, i);
    }
    proof {
        assert(sv[i as int] == statements@[i as int]@);
    }
    match &statements[i] {
        lir::Statement::Paragraph(p) => {
            let mut v = Vec::new();
            v.push(lir::TextSegment::Break);
            let mut text = copy_segments(&p.text.segments);
            v.append(&mut text);
            let ghost head = v@;
            let (rest, end) = collect_conts(statements, i + 1);
            let mut rest = rest;
            let ghost rest_view = rest@;
            v.append(&mut rest);
            proof {
                lemma_lir_segments_view_concat(head, rest_view);
                assert(lir::segments_view(head) =~= seq![lir::TextSegmentView::Break] + para_text(
                    sv[i as int],
                ));
                assert(lir::segments_view(v@) == lir::segments_view(head) + cont_text(
                    sv,
                    i + 1,
                    end - (i + 1),
                ));
                assert(cont_text(sv, i as int, end - i) == seq![lir::TextSegmentView::Break]
                    + para_text(sv[i as int]) + cont_text(sv, i + 1, end - (i + 1)));
                assert(lir::segments_view(v@) =~= cont_text(sv, i as int, end - i));
            }
            (v, end)
        },
        _ => {
            let v = Vec::<lir::TextSegment>::new();
            proof {
                assert(lir::segments_view(v@) =~= cont_text(sv, i as int, 0));
            }
            (v, i)
        },
    }
}

/// Merge the statements of a list run, from entry `i` on, into items:
/// each list item takes the text of its lazy continuations.
fn merge_run(statements: &Vec<lir::Statement>, i: usize) -> (r: Vec<RunItem>)
    requires
        i <= statements@.len(),
    ensures
        run_items_view(r@) == merge_items(lir::statements_view(statements@), i as int),
    decreases statements@.len() - i,
{
    let ghost sv = lir::statements_view(statements@);
    if i == statements.len() {
        let r = Vec::<RunItem>::new();
        proof {
            assert(run_items_view(r@) =~= merge_items(sv, i as int));
        }
        return r;
    }
    proof {
        assert(sv[i as int] == statements@[i as int]@);
    }
    match &statements[i] {
        lir::Statement::ListItem(li) => {
            let mut segs = copy_segments(&li.text.segments);
            let ghost base = segs@;
            let (conts, end) = collect_conts(statements, i + 1);
            let mut conts = conts;
            let ghost conts_view = conts@;
            segs.append(&mut conts);
            let ghost entry = ItemEntry {
                indentation: li.indentation as int,
                segments: lir::segments_view(segs@),
            };
            let mut r = Vec::new();
            r.push(RunItem { indentation: li.indentation, segments: segs });
            let mut rest = merge_run(statements, end);
            let ghost rest_view = rest@;
            r.append(&mut rest);
            proof {
                lemma_lir_segments_view_concat(base, conts_view);
                let k = end - (i + 1);
                let m = merge_items(sv, i as int);
                assert(m == seq![
                    ItemEntry {
                        indentation: li.indentation as nat as int,
                        segments: li.text@ + cont_text(sv, i + 1, k),
                    },
                ] + merge_items(sv, end as int));
                assert(entry.segments == li.text@ + cont_text(sv, i + 1, k));
                assert(rest_view.len() == run_items_view(rest_view).len());
                assert(rest_view.len() == merge_items(sv, end as int).len());
                assert forall|j: int| 0 <= j < r@.len() implies run_items_view(r@)[j] == m[j] by {
                    if j == 0 {
                        assert(run_items_view(r@)[0] == entry);
                        assert(m[0] == entry);
                    } else {
                        assert(r@[j] == rest_view[j - 1]);
                        assert(run_items_view(r@)[j] == run_items_view(rest_view)[j - 1]);
                        assert(m[j] == merge_items(sv, end as int)[j - 1]);
                    }
                }
                assert(run_items_view(r@) =~= m);
            }
            r
        },
        _ => {
            let r = merge_run(statements, i + 1);
            r
        },
    }
}

/// `first_below` is the position of any threshold crossing bounded on
/// the left.
proof fn lemma_first_below_is(items: Seq<ItemEntry>, from: int, threshold: int, j: int)
    requires
        0 <= from <= j <= items.len(),
        forall|k: int| from <= k < j ==> (#[trigger] items[k]).indentation >= threshold,
        j < items.len() ==> items[j].indentation < threshold,
    ensures
        first_below(items, from, threshold) == j,
    decreases j - from,
{
    if j == from {
    } else {
        assert(items[from].indentation >= threshold);
        lemma_first_below_is(items, from + 1, threshold, j);
    }
}

/// Nest the items `items[from..to)` of a run into a list by their
/// indentation.
fn build_list_range(items: &Vec<RunItem>, from: usize, to: usize) -> (r: Vec<hir::ListItem>)
    requires
        from <= to <= items@.len(),
    ensures
        hir::items_view(r@) == build_list(
            run_items_view(items@).subrange(from as int, to as int),
        ),
    decreases to - from,
{
    let ghost sub = run_items_view(items@).subrange(from as int, to as int);
    if from == to {
        let r = Vec::<hir::ListItem>::new();
        proof {
            assert(hir::items_view(r@) =~= build_list(sub));
        }
        return r;
    }
    let seg_count = items[from].segments.len();
    let text = resolve_range(&items[from].segments, 0, seg_count);
    proof {
        assert(sub[0] == run_items_view(items@)[from as int]);
        assert(lir::segments_view(items@[from as int].segments@).subrange(
            0,
            items@[from as int].segments@.len() as int,
        ) =~= sub[0].segments);
    }
    let has_child = from + 1 < to && items[from + 1].indentation >= items[from].indentation
        && items[from + 1].indentation - items[from].indentation >= 2;
    if has_child {
        let threshold = items[from + 1].indentation;
        let mut e = from + 2;
        while e < to && items[e].indentation >= threshold
            invariant
                from + 2 <= e <= to,
                to <= items@.len(),
                forall|k: int|
                    from + 2 <= k < e ==> (#[trigger] items@[k]).indentation >= threshold,
            decreases to - e,
        {
            e += 1;
        }
        proof {
            assert forall|k: int| 2 <= k < e - from implies (#[trigger] sub[k]).indentation
                >= threshold as int by {
                assert(items@[from + k].indentation >= threshold);
                assert(sub[k] == run_items_view(items@)[from + k]);
            }
            if e < to {
                assert(sub[e - from] == run_items_view(items@)[e as int]);
            }
            lemma_first_below_is(sub, 2, threshold as int, e - from);
        }
        let inner = build_list_range(items, from + 1, e);
        let item = hir::ListItem {
            text: hir::Text { segments: text },
            child: Some(hir::List { items: inner }),
        };
        let mut r = Vec::new();
        r.push(item);
        let ghost head = r@;
        let mut rest = build_list_range(items, e, to);
        let ghost rest_view = rest@;
        r.append(&mut rest);
        proof {
            lemma_items_view_concat(head, rest_view);
            lemma_items_view_one(head);
            assert(sub.subrange(1, e - from) =~= run_items_view(items@).subrange(
                from + 1,
                e as int,
            ));
            assert(sub.skip(e - from) =~= run_items_view(items@).subrange(e as int, to as int));
            assert(sub[1] == run_items_view(items@)[from + 1]);
            assert(sub[1].indentation >= sub[0].indentation + 2);
            assert(hir::item_view(head[0]) == hir::ListItemView {
                text: resolve(sub[0].segments),
                child: Some(build_list(sub.subrange(1, e - from))),
            });
            assert(build_list(sub) == seq![
                hir::ListItemView {
                    text: resolve(sub[0].segments),
                    child: Some(build_list(sub.subrange(1, e - from))),
                },
            ] + build_list(sub.skip(e - from)));
        }
        r
    } else {
        let item = hir::ListItem { text: hir::Text { segments: text }, child: None };
        let mut r = Vec::new();
        r.push(item);
        let ghost head = r@;
        let mut rest = build_list_range(items, from + 1, to);
        let ghost rest_view = rest@;
        r.append(&mut rest);
        proof {
            lemma_items_view_concat(head, rest_view);
            lemma_items_view_one(head);
            if from + 1 < to {
                assert(sub[1] == run_items_view(items@)[from + 1]);
                assert(!(sub[1].indentation >= sub[0].indentation + 2));
            }
            assert(sub.skip(1) =~= run_items_view(items@).subrange(from + 1, to as int));
            assert(hir::item_view(head[0]) == hir::ListItemView {
                text: resolve(sub[0].segments),
                child: None,
            });
            assert(build_list(sub) == seq![
                hir::ListItemView { text: resolve(sub[0].segments), child: None },
            ] + build_list(sub.skip(1)));
        }
        r
    }
}

/// A list run: non-empty, only list items and paragraphs, and led by a
/// list item (a leading paragraph cannot arise, since a run only starts
/// at a list item).
pub open spec fn wf_list_run(entries: Seq<lir::StatementView>) -> bool {
    &&& entries.len() > 0
    &&& entries[0] matches lir::StatementView::ListItem(_, _)
    &&& forall|i: int| 0 <= i < entries.len() ==> is_list_entry(#[trigger] entries[i])
}

/// Lower one list run into a nested list: continuations merge into their
/// items, then indentation drives the nesting.
pub fn parse_list(statements: &Vec<lir::Statement>) -> (r: Result<hir::List>)
    requires
        wf_list_run(lir::statements_view(statements@)),
    ensures
        r matches Ok(l) && l@ == build_list(
            merge_items(lir::statements_view(statements@), 0),
        ),
{
    let items = merge_run(statements, 0);
    let len = items.len();
    let list_items = build_list_range(&items, 0, len);
    proof {
        assert(run_items_view(items@).subrange(0, items@.len() as int) =~= run_items_view(
            items@,
        ));
    }
    Ok(hir::List { items: list_items })
}

// ---------------------------------------------------------------------------
// Executable lowering
// ---------------------------------------------------------------------------

/// A fresh copy of one line-level statement (up to its model).
fn copy_statement(s: &lir::Statement) -> (r: lir::Statement)
    ensures
        r@ == s@,
{
    match s {
        lir::Statement::EmptyLine(_) => lir::Statement::EmptyLine(lir::EmptyLineStatement),
        lir::Statement::Comment(c) => lir::Statement::Comment(lir::CommentStatement {
            text: c.text.clone(),
        }),
        lir::Statement::Header(h) => lir::Statement::Header(lir::HeaderStatement {
            header_type: h.header_type,
            text: lir::Text { segments: copy_segments(&h.text.segments) },
        }),
        lir::Statement::Paragraph(p) => lir::Statement::Paragraph(lir::ParagraphStatement {
            text: lir::Text { segments: copy_segments(&p.text.segments) },
        }),
        lir::Statement::ListItem(li) => lir::Statement::ListItem(lir::ListItemStatement {
            indentation: li.indentation,
            text: lir::Text { segments: copy_segments(&li.text.segments) },
        }),
    }
}

/// Collect the paragraph run that starts at statement `i`.
fn collect_paras(statements: &Vec<lir::Statement>, i: usize) -> (r: (
    Vec<lir::ParagraphStatement>,
    usize,
))
    requires
        i <= statements@.len(),
    ensures
        i <= r.1 <= statements@.len(),
        r.1 - i == para_run(lir::statements_view(statements@), i as int),
        r.0@.len() == r.1 - i,
        forall|k: int|
            0 <= k < r.0@.len() ==> (#[trigger] r.0@[k]).text@ == para_text(
                lir::statements_view(statements@)[i + k],
            ),
    decreases statements@.len() - i,
{
    let ghost sv = lir::statements_view(statements@);
    if i == statements.len() {
        return (Vec::new(), i);
    }
    proof {
        assert(sv[i as int] == statements@[i as int]@);
    }
    match &statements[i] {
        lir::Statement::Paragraph(p) => {
            let copy = lir::ParagraphStatement {
                text: lir::Text { segments: copy_segments(&p.text.segments) },
            };
            let ghost copy_text = copy.text@;
            let (rest, end) = collect_paras(statements, i + 1);
            let mut v = Vec::new();
            v.push(copy);
            let mut rest = rest;
            let ghost rest_view = rest@;
            v.append(&mut rest);
            proof {
                assert(copy_text == para_text(sv[i as int]));
                assert forall|k: int|
                    0 <= k < v@.len() implies (#[trigger] v@[k]).text@ == para_text(
                    sv[i + k],
                ) by {
                    if k > 0 {
                        assert(v@[k] == rest_view[k - 1]);
                        assert(rest_view[k - 1].text@ == para_text(sv[i + 1 + (k - 1)]));
                    }
                }
            }
            (v, end)
        },
        _ => (Vec::new(), i),
    }
}

/// Collect the list run that starts at statement `i`.
fn collect_list_run(statements: &Vec<lir::Statement>, i: usize) -> (r: (
    Vec<lir::Statement>,
    usize,
))
    requires
        i <= statements@.len(),
    ensures
        i <= r.1 <= statements@.len(),
        r.1 - i == list_run(lir::statements_view(statements@), i as int),
        lir::statements_view(r.0@) == lir::statements_view(statements@).subrange(
            i as int,
            r.1 as int,
        ),
    decreases statements@.len() - i,
{
    let ghost sv = lir::statements_view(statements@);
    if i == statements.len() {
        let v = Vec::<lir::Statement>::new();
        proof {
            assert(lir::statements_view(v@) =~= sv.subrange(i as int, i as int));
        }
        return (v, i);
    }
    proof {
        assert(sv[i as int] == statements@[i as int]@);
    }
    let entry = match &statements[i] {
        lir::Statement::ListItem(_) => true,
        lir::Statement::Paragraph(_) => true,
        _ => false,
    };
    if !entry {
        let v = Vec::<lir::Statement>::new();
        proof {
            assert(lir::statements_view(v@) =~= sv.subrange(i as int, i as int));
        }
        return (v, i);
    }
    let copy = copy_statement(&statements[i]);
    let ghost copy_view = copy@;
    let (rest, end) = collect_list_run(statements, i + 1);
    let mut v = Vec::new();
    v.push(copy);
    let mut rest = rest;
    let ghost rest_view = rest@;
    v.append(&mut rest);
    proof {
        assert(rest_view.len() == lir::statements_view(rest_view).len());
        assert(rest_view.len() == sv.subrange(i + 1, end as int).len());
        assert(v@.len() == end - i);
        assert forall|k: int|
            0 <= k < v@.len() implies lir::statements_view(v@)[k] == sv.subrange(
            i as int,
            end as int,
        )[k] by {
            if k == 0 {
                assert(v@[0]@ == copy_view);
            } else {
                assert(v@[k] == rest_view[k - 1]);
                assert(lir::statements_view(rest_view)[k - 1] == sv.subrange(
                    i + 1,
                    end as int,
                )[k - 1]);
            }
        }
        assert(lir::statements_view(v@) =~= sv.subrange(i as int, end as int));
    }
    (v, end)
}

/// `merged_para_texts` of a collected run is `merge_paras` of the run in
/// place.
proof fn lemma_merged_para_texts_eq(
    ps: Seq<lir::ParagraphStatement>,
    stmts: Seq<lir::StatementView>,
    i: int,
)
    requires
        0 <= i,
        i + ps.len() <= stmts.len(),
        forall|k: int| 0 <= k < ps.len() ==> (#[trigger] ps[k]).text@ == para_text(stmts[i + k]),
    ensures
        merged_para_texts(ps) == merge_paras(stmts, i, ps.len() as int),
    decreases ps.len(),
{
    if ps.len() == 0 {
    } else if ps.len() == 1 {
        assert(ps[0].text@ == para_text(stmts[i]));
    } else {
        assert forall|k: int|
            0 <= k < ps.drop_first().len() implies (#[trigger] ps.drop_first()[k]).text@
            == para_text(stmts[i + 1 + k]) by {
            assert(ps[k + 1].text@ == para_text(stmts[i + (k + 1)]));
        }
        lemma_merged_para_texts_eq(ps.drop_first(), stmts, i + 1);
        assert(ps[0].text@ == para_text(stmts[i]));
    }
}

/// Lower the statement tail that begins at statement `i`.
fn lower_stmts(document: &lir::Document, i: usize) -> (r: Vec<hir::Statement>)
    requires
        i <= document.statements@.len(),
    ensures
        hir::statements_view(r@) == lower_from(document@, i as int),
    decreases document.statements@.len() - i,
{
    let ghost sv = document@;
    if i == document.statements.len() {
        let r = Vec::<hir::Statement>::new();
        proof {
            assert(hir::statements_view(r@) =~= lower_from(sv, i as int));
        }
        return r;
    }
    proof {
        assert(sv[i as int] == document.statements@[i as int]@);
    }
    match &document.statements[i] {
        lir::Statement::EmptyLine(_) => lower_stmts(document, i + 1),
        lir::Statement::Comment(_) => lower_stmts(document, i + 1),
        lir::Statement::Header(h) => {
            let hh = match parse_header_statement(h) {
                Ok(hh) => hh,
                Err(e) => match e {
                    Error::Lowering => {
                        proof {
                            assert(false);
                        }
                        hir::HeaderStatement {
                            header_type: h.header_type,
                            text: hir::Text { segments: Vec::new() },
                        }
                    },
                },
            };
            let ghost head_view = hir::StatementView::Header(hh.header_type, hh.text@);
            let mut r = Vec::new();
            r.push(hir::Statement::Header(hh));
            let ghost head = r@;
            let mut rest = lower_stmts(document, i + 1);
            let ghost rest_view = rest@;
            r.append(&mut rest);
            proof {
                lemma_hir_statements_view_concat(head, rest_view);
                assert(hir::statements_view(head) =~= seq![head_view]);
                assert(hir::statements_view(r@) =~= lower_from(sv, i as int));
            }
            r
        },
        lir::Statement::Paragraph(_) => {
            let (paras, end) = collect_paras(&document.statements, i);
            let p = match parse_paragraph_statement(&paras) {
                Ok(p) => p,
                Err(e) => match e {
                    Error::Lowering => {
                        proof {
                            assert(false);
                        }
                        hir::ParagraphStatement { text: hir::Text { segments: Vec::new() } }
                    },
                },
            };
            proof {
                lemma_merged_para_texts_eq(paras@, sv, i as int);
                lemma_para_run(sv, i + 1);
                assert(para_run(sv, i as int) == 1 + para_run(sv, i + 1));
                assert(end > i);
            }
            let ghost head_view = hir::StatementView::Paragraph(p.text@);
            let mut r = Vec::new();
            r.push(hir::Statement::Paragraph(p));
            let ghost head = r@;
            let mut rest = lower_stmts(document, end);
            let ghost rest_view = rest@;
            r.append(&mut rest);
            proof {
                lemma_hir_statements_view_concat(head, rest_view);
                assert(hir::statements_view(head) =~= seq![head_view]);
                assert(hir::statements_view(r@) =~= lower_from(sv, i as int));
            }
            r
        },
        lir::Statement::ListItem(_) => {
            let (run, end) = collect_list_run(&document.statements, i);
            proof {
                lemma_list_run(sv, i as int);
                lemma_list_run(sv, i + 1);
                assert(list_run(sv, i as int) == 1 + list_run(sv, i + 1));
                assert(lir::statements_view(run@) == sv.subrange(i as int, end as int));
                assert(lir::statements_view(run@).len() == end - i);
                assert(end > i);
                assert(lir::statements_view(run@)[0] == sv[i as int]);
                assert forall|k: int|
                    0 <= k < lir::statements_view(run@).len() implies is_list_entry(
                    #[trigger] lir::statements_view(run@)[k],
                ) by {
                    assert(lir::statements_view(run@)[k] == sv[i + k]);
                    assert(is_list_entry(sv[i + k]));
                }
                assert(wf_list_run(lir::statements_view(run@)));
            }
            let l = match parse_list(&run) {
                Ok(l) => l,
                Err(e) => match e {
                    Error::Lowering => {
                        proof {
                            assert(false);
                        }
                        hir::List { items: Vec::new() }
                    },
                },
            };
            let ghost head_view = hir::StatementView::List(l@);
            let mut r = Vec::new();
            r.push(hir::Statement::List(hir::ListStatement { list: l }));
            let ghost head = r@;
            let mut rest = lower_stmts(document, end);
            let ghost rest_view = rest@;
            r.append(&mut rest);
            proof {
                lemma_hir_statements_view_concat(head, rest_view);
                assert(hir::statements_view(head) =~= seq![head_view]);
                assert(merge_items(lir::statements_view(run@), 0) == merge_items(
                    sv.subrange(i as int, end as int),
                    0,
                ));
                assert(hir::statements_view(r@) =~= lower_from(sv, i as int));
            }
            r
        },
    }
}

/// Lower a whole line-level tree into the document tree.  Lowering is
/// total: every tree, however degenerate, lowers to some document.
pub fn parse(document: &lir::Document) -> (r: Result<hir::Document>)
    ensures
        r matches Ok(d) && d@ == lower(document@),
{
    let statements = lower_stmts(document, 0);
    Ok(hir::Document { statements })
}

} // verus!
