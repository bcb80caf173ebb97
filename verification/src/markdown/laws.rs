//! What holds of the preview as a whole.

use vstd::prelude::*;
use vstd::utf8::*;

use crate::bytes::{boundary, lemma_boundary_ends, text_between};
use crate::editor::lemma_slice_bytes;
use crate::layout::clusters_in_order;
use crate::markdown::ast::{
    end_from, lemma_end_from, subtree_end, Alignment, KindView, ListInfo, NodeView,
};
use crate::markdown::flow::{
    cells_of, lemma_merging_keeps_the_text, lemma_wrapping_is_lossless, row_ranges, rows_join,
    run_cells, runs_between, text_of, wrapped, ClusterView,
};
use crate::markdown::grid::{cell_runs, fitted, left_of, runs_width, spaces};
use crate::markdown::highlight_laws::has_its_style;
use crate::markdown::preview::{
    all_blank, bare, block, children, code_rows, document, footnote, footnote_label, glyph_of,
    heading_runs, html_rows, inner_width, item_content, keyword, keyword_char, keyword_runs, list,
    list_item, marked_item, marker_of, prefixed, quote, restyled, run_between, separated, RowView,
    Scene, Sheet, MAX_QUOTE_DEPTH,
};
use crate::markdown::theme::MarkdownTheme;
use crate::strings::{
    byte_len, decimal, first_word, lemma_bytes_concat, lemma_bytes_injective, lines_from, occurs_at,
    repeated, trimmed, white_space,
};
use crate::style::{raw, shown, SpanView, Style};
use crate::text::{cluster_stop, cluster_text, clusters, columns};

verus! {

/// What a node says itself, besides the nodes under it.
pub open spec fn own_text(kind: KindView, hard_breaks: bool) -> Seq<char> {
    match kind {
        KindView::Text(t) => t,
        KindView::Code(t) => t,
        KindView::HtmlInline(t) => t,
        KindView::Raw(t) => t,
        KindView::SoftBreak => if hard_breaks {
            "\n"@
        } else {
            " "@
        },
        KindView::LineBreak => "\n"@,
        KindView::FootnoteReference(name) => "["@ + name + "]"@,
        KindView::Image => "[img] "@,
        KindView::TaskItem { checked } => if checked {
            "\u{25a0} "@
        } else {
            "\u{25a1} "@
        },
        _ => Seq::empty(),
    }
}

/// What the nodes from `j` to `end` say, one after the other, whatever they stand in.
pub open spec fn all_text(nodes: Seq<NodeView>, j: int, end: int, hard_breaks: bool) -> Seq<char>
    decreases end - j,
{
    if j >= end {
        Seq::empty()
    } else {
        own_text(nodes[j].kind, hard_breaks) + all_text(nodes, j + 1, end, hard_breaks)
    }
}

/// Whether a node never holds others: text, code, breaks and the like.
pub open spec fn holds_none(kind: KindView) -> bool {
    kind is Text || kind is Code || kind is HtmlInline || kind is Raw || kind is SoftBreak
        || kind is LineBreak || kind is FootnoteReference || kind is TaskItem
}

/// Whether the nodes from `j` to `end` are such that those that never hold others hold none.
pub open spec fn leaves_are_bare(nodes: Seq<NodeView>, j: int, end: int) -> bool {
    forall|i: int|
        j <= i && i + 1 < end && holds_none((#[trigger] nodes[i]).kind) ==> nodes[i + 1].depth
            <= nodes[i].depth
}

proof fn lemma_all_text_splits(
    nodes: Seq<NodeView>,
    j: int,
    k: int,
    end: int,
    hard_breaks: bool,
)
    requires
        j <= k <= end,
    ensures
        all_text(nodes, j, end, hard_breaks) == all_text(nodes, j, k, hard_breaks) + all_text(
            nodes,
            k,
            end,
            hard_breaks,
        ),
    decreases k - j,
{
    if j < k {
        lemma_all_text_splits(nodes, j + 1, k, end, hard_breaks);
        assert(all_text(nodes, j, end, hard_breaks) =~= all_text(nodes, j, k, hard_breaks)
            + all_text(nodes, k, end, hard_breaks));
    } else {
        assert(all_text(nodes, j, end, hard_breaks) =~= all_text(nodes, j, k, hard_breaks)
            + all_text(nodes, k, end, hard_breaks));
    }
}

pub(crate) proof fn lemma_text_of_concat(a: Seq<SpanView>, b: Seq<SpanView>)
    ensures
        text_of(a + b) == text_of(a) + text_of(b),
    decreases b.len(),
{
    if b.len() == 0 {
        assert(a + b =~= a);
        assert(text_of(a) + text_of(b) =~= text_of(a));
    } else {
        lemma_text_of_concat(a, b.drop_last());
        assert((a + b).drop_last() =~= a + b.drop_last());
        assert(text_of(a + b) =~= text_of(a) + text_of(b));
    }
}

pub(crate) proof fn lemma_text_of_one(s: SpanView)
    ensures
        text_of(seq![s]) == s.text,
{
    assert(seq![s].drop_last() =~= Seq::<SpanView>::empty());
    assert(text_of(Seq::<SpanView>::empty()) =~= Seq::<char>::empty());
    assert(text_of(seq![s]) =~= s.text);
}

proof fn lemma_run_text(text: Seq<char>, a: int, b: int, style: Style)
    requires
        0 <= a <= b <= text.len(),
    ensures
        text_of(run_between(text, a, b, style)) == text.subrange(a, b),
{
    if a < b {
        lemma_text_of_one(shown(text.subrange(a, b), style));
    } else {
        assert(text_of(run_between(text, a, b, style)) =~= text.subrange(a, b));
    }
}

/// The runs of a text, keywords and all, say the text.
proof fn lemma_keyword_runs_say_the_text(
    text: Seq<char>,
    i: int,
    last: int,
    base: Style,
    theme: MarkdownTheme,
)
    requires
        0 <= last <= i,
        last <= text.len(),
    ensures
        text_of(keyword_runs(text, i, last, base, theme)) == text.skip(last),
    decreases text.len() - i,
{
    if i >= text.len() {
        lemma_run_text(text, last, text.len() as int, base);
        assert(text.subrange(last, text.len() as int) =~= text.skip(last));
    } else {
        match keyword(text, i, theme) {
            Some((end, style)) if i < end <= text.len() => {
                let plain = run_between(text, last, i, base);
                let word = seq![shown(text.subrange(i, end), style)];
                let rest = keyword_runs(text, end, end, base, theme);
                lemma_keyword_runs_say_the_text(text, end, end, base, theme);
                lemma_run_text(text, last, i, base);
                lemma_text_of_one(shown(text.subrange(i, end), style));
                lemma_text_of_concat(plain, word);
                lemma_text_of_concat(plain + word, rest);
                assert(text.subrange(last, i) + text.subrange(i, end) + text.skip(end)
                    =~= text.skip(last));
            },
            _ => {
                lemma_keyword_runs_say_the_text(text, i + 1, last, base, theme);
            },
        }
    }
}

/// The end of a subtree is its end among the nodes before that end, too.
pub(crate) proof fn lemma_subtree_end_again(nodes: Seq<NodeView>, depth: usize, j: int, end: int)
    requires
        j <= end,
    ensures
        end_from(nodes, depth, j, end_from(nodes, depth, j, end)) == end_from(nodes, depth, j, end),
    decreases end - j,
{
    lemma_end_from(nodes, depth, j, end);
    if j < end && nodes[j].depth > depth {
        lemma_subtree_end_again(nodes, depth, j + 1, end);
        lemma_end_from(nodes, depth, j + 1, end);
    }
}

/// The runs of inline nodes are those of the first subtree and those of the rest.
pub(crate) proof fn lemma_inline_splits(
    theme: MarkdownTheme,
    nodes: Seq<NodeView>,
    j: int,
    end: int,
    style: Style,
)
    requires
        j < end,
    ensures
        ({
            let k = subtree_end(nodes, j, end);
            crate::markdown::preview::inline(theme, nodes, j, end, style) == crate::markdown::preview::inline(theme, nodes, j, k, style) + crate::markdown::preview::inline(
                theme,
                nodes,
                k,
                end,
                style,
            )
        }),
{
    let k = subtree_end(nodes, j, end);
    lemma_end_from(nodes, nodes[j].depth, j + 1, end);
    lemma_subtree_end_again(nodes, nodes[j].depth, j + 1, end);
    let none = crate::markdown::preview::inline(theme, nodes, k, k, style);
    assert(none =~= Seq::<SpanView>::empty());
    assert(crate::markdown::preview::inline(theme, nodes, j, end, style) =~= crate::markdown::preview::inline(theme, nodes, j, k, style) + crate::markdown::preview::inline(
        theme,
        nodes,
        k,
        end,
        style,
    ));
}

/// Nothing that is written is lost in the preview: the runs of inline nodes say, in order,
/// what each of those nodes says, be it in emphasis, in a link or in anything else.
pub proof fn lemma_inline_text_is_kept(
    theme: MarkdownTheme,
    nodes: Seq<NodeView>,
    j: int,
    end: int,
    style: Style,
)
    requires
        0 <= j <= end <= nodes.len(),
        leaves_are_bare(nodes, j, end),
    ensures
        text_of(crate::markdown::preview::inline(theme, nodes, j, end, style)) == all_text(
            nodes,
            j,
            end,
            theme.hard_breaks,
        ),
    decreases end - j,
{
    if j < end {
        let k = subtree_end(nodes, j, end);
        lemma_end_from(nodes, nodes[j].depth, j + 1, end);
        let hb = theme.hard_breaks;
        let kind = nodes[j].kind;
        let tail = crate::markdown::preview::inline(theme, nodes, k, end, style);
        lemma_inline_text_is_kept(theme, nodes, k, end, style);
        lemma_all_text_splits(nodes, j + 1, k, end, hb);
        if holds_none(kind) {
            assert(k == j + 1) by {
                if j + 1 < end {
                    assert(nodes[j + 1].depth <= nodes[j].depth);
                }
            }
            assert(all_text(nodes, j + 1, k, hb) =~= Seq::<char>::empty());
        } else {
            lemma_inline_text_is_kept(theme, nodes, j + 1, k, style);
            lemma_inline_text_is_kept(theme, nodes, j + 1, k, style.with_italic());
            lemma_inline_text_is_kept(theme, nodes, j + 1, k, style.with_bold());
            lemma_inline_text_is_kept(theme, nodes, j + 1, k, style.with_crossed_out());
            lemma_inline_text_is_kept(theme, nodes, j + 1, k, style.with_underlined());
            lemma_inline_text_is_kept(theme, nodes, j + 1, k, theme.link);
        }
        let under = all_text(nodes, j + 1, k, hb);
        let own = own_text(kind, hb);
        lemma_inline_splits(theme, nodes, j, end, style);
        let here = crate::markdown::preview::inline(theme, nodes, j, k, style);
        lemma_subtree_end_again(nodes, nodes[j].depth, j + 1, end);
        assert(crate::markdown::preview::inline(theme, nodes, k, k, style) =~= Seq::<SpanView>::empty());
        assert(text_of(here) =~= own + under) by {
            reveal_strlit("[");
            reveal_strlit("]");
            reveal_strlit("\u{25a0} ");
            reveal_strlit("\u{25a1} ");
            match kind {
                KindView::Text(t) => {
                    lemma_keyword_runs_say_the_text(t, 0, 0, style, theme);
                    assert(t.skip(0) =~= t);
                },
                KindView::Image => {
                    let mark = seq![shown("[img] "@, theme.link)];
                    lemma_text_of_one(mark[0]);
                    lemma_text_of_concat(mark, crate::markdown::preview::inline(theme, nodes, j + 1, k, theme.link));
                },
                _ => {
                    if holds_none(kind) {
                        assert(here.len() == 1);
                        lemma_text_of_one(here[0]);
                        assert(here =~= seq![here[0]]);
                        assert(here[0].text =~= own);
                    }
                },
            }
        }
        lemma_text_of_concat(here, tail);
        assert(text_of(here + tail) =~= own + (under + all_text(nodes, k, end, hb)));
    }
}

/// Whether the node at `a` stands around the node at `i`.
pub open spec fn encloses(nodes: Seq<NodeView>, a: int, i: int) -> bool {
    a < i && forall|m: int| a < m <= i ==> (#[trigger] nodes[m]).depth > nodes[a].depth
}

/// What a container makes of the style around it.
pub open spec fn worn(theme: MarkdownTheme, kind: KindView, style: Style) -> Style {
    match kind {
        KindView::Emph => Style { italic: true, ..style },
        KindView::Strong => Style { bold: true, ..style },
        KindView::Strikethrough => Style { crossed_out: true, ..style },
        KindView::Underline => Style { underlined: true, ..style },
        KindView::Link => theme.link,
        KindView::Image => theme.link,
        _ => style,
    }
}

/// What all the containers from `a` on that stand around a node make of a style.
pub open spec fn dressed(
    theme: MarkdownTheme,
    nodes: Seq<NodeView>,
    a: int,
    i: int,
    style: Style,
) -> Style
    decreases i - a,
{
    if a >= i {
        style
    } else {
        dressed(
            theme,
            nodes,
            a + 1,
            i,
            if encloses(nodes, a, i) {
                worn(theme, nodes[a].kind, style)
            } else {
                style
            },
        )
    }
}

/// Whether a run is one of the words that stand out, in its style.
pub open spec fn stands_out(run: SpanView, theme: MarkdownTheme) -> bool {
    ||| (run.text == "TODO"@ || run.text == "NOTE"@) && run.style == theme.keyword_note
    ||| (run.text == "WARN"@ || run.text == "WARNING"@) && run.style == theme.keyword_warn
    ||| (run.text == "FIXME"@ || run.text == "ERROR"@) && run.style == theme.keyword_error
    ||| (run.text == "HACK"@ || run.text == "IMPORTANT"@) && run.style == theme.keyword_misc
}

/// Whether a run of a node is drawn as it is to be, in the style around that node.
pub open spec fn drawn_right(
    run: SpanView,
    kind: KindView,
    theme: MarkdownTheme,
    style: Style,
) -> bool {
    match kind {
        KindView::Text(_) => run.style == style || stands_out(run, theme),
        KindView::Code(_) => run.style == theme.code_inline,
        KindView::HtmlInline(_) => run.style == theme.html,
        KindView::FootnoteReference(_) => run.style == theme.link,
        KindView::Image => run.style == theme.link,
        KindView::TaskItem { checked } => run.style == if checked {
            theme.task_done
        } else {
            theme.task_todo
        },
        _ => run.style == style,
    }
}

/// Whether `mine` are the runs of the node at `i`, in their place among all: what stands
/// before them says what the nodes before it say.
pub open spec fn placed(
    all: Seq<SpanView>,
    mine: Seq<SpanView>,
    before: Seq<SpanView>,
    after: Seq<SpanView>,
    theme: MarkdownTheme,
    nodes: Seq<NodeView>,
    j: int,
    i: int,
    style: Style,
) -> bool {
    &&& all == before + mine + after
    &&& text_of(before) == all_text(nodes, j, i, theme.hard_breaks)
    &&& text_of(mine) == own_text(nodes[i].kind, theme.hard_breaks)
    &&& forall|r: int|
        0 <= r < mine.len() ==> drawn_right(#[trigger] mine[r], nodes[i].kind, theme, style)
}

proof fn lemma_keyword_runs_are_drawn_right(
    text: Seq<char>,
    i: int,
    last: int,
    base: Style,
    theme: MarkdownTheme,
)
    requires
        0 <= last <= i,
    ensures
        forall|r: int|
            0 <= r < keyword_runs(text, i, last, base, theme).len() ==> ((
            #[trigger] keyword_runs(text, i, last, base, theme)[r]).style == base || stands_out(
                keyword_runs(text, i, last, base, theme)[r],
                theme,
            )),
    decreases text.len() - i,
{
    if i < text.len() {
        match keyword(text, i, theme) {
            Some((end, style)) if i < end <= text.len() => {
                lemma_keyword_runs_are_drawn_right(text, end, end, base, theme);
                let word = shown(text.subrange(i, end), style);
                assert(stands_out(word, theme)) by {
                    reveal_strlit("IMPORTANT");
                    reveal_strlit("WARNING");
                    reveal_strlit("FIXME");
                    reveal_strlit("ERROR");
                    reveal_strlit("WARN");
                    reveal_strlit("TODO");
                    reveal_strlit("NOTE");
                    reveal_strlit("HACK");
                    assert(word.text =~= text.subrange(i, i + (end - i)));
                }
                let rest = keyword_runs(text, end, end, base, theme);
                let plain = run_between(text, last, i, base);
                let all = keyword_runs(text, i, last, base, theme);
                assert(all == plain + seq![word] + rest);
                assert forall|r: int| 0 <= r < all.len() implies (#[trigger] all[r]).style == base
                    || stands_out(all[r], theme) by {
                    if r > plain.len() {
                        assert(all[r] == rest[r - plain.len() - 1]);
                    }
                }
            },
            _ => {
                lemma_keyword_runs_are_drawn_right(text, i + 1, last, base, theme);
            },
        }
    }
}

/// The nodes of a subtree lie deeper than its root, and the node behind it does not.
proof fn lemma_subtree_is_deeper(nodes: Seq<NodeView>, depth: usize, j: int, end: int, m: int)
    requires
        j <= end,
    ensures
        j <= m < end_from(nodes, depth, j, end) ==> nodes[m].depth > depth,
        end_from(nodes, depth, j, end) < end ==> nodes[end_from(nodes, depth, j, end)].depth
            <= depth,
    decreases end - j,
{
    if j < end && nodes[j].depth > depth {
        lemma_subtree_is_deeper(nodes, depth, j + 1, end, m);
        lemma_end_from(nodes, depth, j + 1, end);
    }
}

proof fn lemma_subtree_encloses(nodes: Seq<NodeView>, j: int, end: int, i: int)
    requires
        j < i < subtree_end(nodes, j, end),
        j < end,
    ensures
        encloses(nodes, j, i),
{
    assert forall|m: int| j < m <= i implies (#[trigger] nodes[m]).depth > nodes[j].depth by {
        lemma_subtree_is_deeper(nodes, nodes[j].depth, j + 1, end, m);
    }
}

/// What lies in a subtree stands around nothing behind it.
proof fn lemma_dressed_behind(
    theme: MarkdownTheme,
    nodes: Seq<NodeView>,
    j: int,
    a: int,
    k: int,
    i: int,
    end: int,
    style: Style,
)
    requires
        j <= a <= k <= i < end,
        k == subtree_end(nodes, j, end),
    ensures
        dressed(theme, nodes, a, i, style) == dressed(theme, nodes, k, i, style),
    decreases k - a,
{
    if a < k {
        lemma_subtree_is_deeper(nodes, nodes[j].depth, j + 1, end, a);
        assert(!encloses(nodes, a, i)) by {
            assert(nodes[k].depth <= nodes[j].depth);
            assert(nodes[a].depth >= nodes[j].depth);
        }
        lemma_dressed_behind(theme, nodes, j, a + 1, k, i, end, style);
    }
}

/// The runs of the first node of some are drawn in their place.
#[verifier::spinoff_prover]
proof fn lemma_first_node_is_drawn_right(
    theme: MarkdownTheme,
    nodes: Seq<NodeView>,
    j: int,
    end: int,
    style: Style,
) -> (r: (Seq<SpanView>, Seq<SpanView>, Seq<SpanView>))
    requires
        0 <= j < end <= nodes.len(),
        leaves_are_bare(nodes, j, end),
    ensures
        placed(crate::markdown::preview::inline(theme, nodes, j, end, style), r.1, r.0, r.2, theme, nodes, j, j, style),
{
    let hb = theme.hard_breaks;
    let k = subtree_end(nodes, j, end);
    lemma_end_from(nodes, nodes[j].depth, j + 1, end);
    let tail = crate::markdown::preview::inline(theme, nodes, k, end, style);
    let all = crate::markdown::preview::inline(theme, nodes, j, end, style);
    let kind = nodes[j].kind;
    let none = Seq::<SpanView>::empty();
    assert(text_of(none) =~= Seq::<char>::empty());
    assert(all_text(nodes, j, j, hb) =~= Seq::<char>::empty());
    if holds_none(kind) {
        lemma_inline_splits(theme, nodes, j, end, style);
        lemma_subtree_end_again(nodes, nodes[j].depth, j + 1, end);
        let here = crate::markdown::preview::inline(theme, nodes, j, k, style);
        if j + 1 < end {
            assert(nodes[j + 1].depth <= nodes[j].depth);
        }
        assert(all_text(nodes, j + 1, k, hb) =~= Seq::<char>::empty());
        lemma_inline_text_is_kept(theme, nodes, j, k, style);
        assert(all_text(nodes, j, k, hb) =~= own_text(kind, hb));
        assert(crate::markdown::preview::inline(theme, nodes, k, k, style) =~= none);
        if kind is Text {
            lemma_keyword_runs_are_drawn_right(kind->Text_0, 0, 0, style, theme);
            assert(here =~= keyword_runs(kind->Text_0, 0, 0, style, theme));
        } else {
            assert(here.len() == 1);
        }
        assert(all =~= none + here + tail);
        (none, here, tail)
    } else if kind is Image {
        let mark = seq![shown("[img] "@, theme.link)];
        let inner = crate::markdown::preview::inline(theme, nodes, j + 1, k, theme.link);
        lemma_text_of_one(mark[0]);
        assert(all =~= none + mark + (inner + tail));
        (none, mark, inner + tail)
    } else {
        assert(all =~= none + none + all);
        (none, none, all)
    }
}

/// What is drawn in its place in a container is drawn in its place behind its beginning.
#[verifier::spinoff_prover]
proof fn lemma_inside_is_drawn_right(
    theme: MarkdownTheme,
    nodes: Seq<NodeView>,
    j: int,
    end: int,
    style: Style,
    i: int,
    look: Style,
    b: Seq<SpanView>,
    m: Seq<SpanView>,
    a: Seq<SpanView>,
) -> (r: (Seq<SpanView>, Seq<SpanView>, Seq<SpanView>))
    requires
        0 <= j < i < subtree_end(nodes, j, end) <= end <= nodes.len(),
        leaves_are_bare(nodes, j, end),
        placed(
            crate::markdown::preview::inline(
                theme,
                nodes,
                j + 1,
                subtree_end(nodes, j, end),
                worn(theme, nodes[j].kind, style),
            ),
            m,
            b,
            a,
            theme,
            nodes,
            j + 1,
            i,
            look,
        ),
    ensures
        placed(crate::markdown::preview::inline(theme, nodes, j, end, style), r.1, r.0, r.2, theme, nodes, j, i, look),
{
    let hb = theme.hard_breaks;
    let k = subtree_end(nodes, j, end);
    let kind = nodes[j].kind;
    let none = Seq::<SpanView>::empty();
    let tail = crate::markdown::preview::inline(theme, nodes, k, end, style);
    let all = crate::markdown::preview::inline(theme, nodes, j, end, style);
    if holds_none(kind) {
        assert(nodes[j + 1].depth <= nodes[j].depth);
        assert(k == j + 1);
    }
    let under = worn(theme, kind, style);
    let inner = crate::markdown::preview::inline(theme, nodes, j + 1, k, under);
    let lead = if kind is Image {
        seq![shown("[img] "@, theme.link)]
    } else {
        none
    };
    if kind is Image {
        lemma_text_of_one(lead[0]);
    } else {
        assert(text_of(none) =~= Seq::<char>::empty());
    }
    assert(all =~= lead + inner + tail);
    lemma_text_of_concat(lead, b);
    assert(all =~= (lead + b) + m + (a + tail));
    assert(text_of(lead + b) =~= all_text(nodes, j, i, hb));
    (lead + b, m, a + tail)
}

/// What is drawn in its place behind a subtree is drawn in its place behind its beginning.
#[verifier::spinoff_prover]
proof fn lemma_behind_is_drawn_right(
    theme: MarkdownTheme,
    nodes: Seq<NodeView>,
    j: int,
    end: int,
    style: Style,
    i: int,
    look: Style,
    b: Seq<SpanView>,
    m: Seq<SpanView>,
    a: Seq<SpanView>,
) -> (r: (Seq<SpanView>, Seq<SpanView>, Seq<SpanView>))
    requires
        0 <= j < end <= nodes.len(),
        subtree_end(nodes, j, end) <= i < end,
        leaves_are_bare(nodes, j, end),
        placed(
            crate::markdown::preview::inline(theme, nodes, subtree_end(nodes, j, end), end, style),
            m,
            b,
            a,
            theme,
            nodes,
            subtree_end(nodes, j, end),
            i,
            look,
        ),
    ensures
        placed(crate::markdown::preview::inline(theme, nodes, j, end, style), r.1, r.0, r.2, theme, nodes, j, i, look),
{
    let hb = theme.hard_breaks;
    let k = subtree_end(nodes, j, end);
    lemma_end_from(nodes, nodes[j].depth, j + 1, end);
    lemma_inline_splits(theme, nodes, j, end, style);
    let here = crate::markdown::preview::inline(theme, nodes, j, k, style);
    lemma_all_text_splits(nodes, j, k, i, hb);
    lemma_inline_text_is_kept(theme, nodes, j, k, style);
    lemma_text_of_concat(here, b);
    assert(crate::markdown::preview::inline(theme, nodes, j, end, style) =~= (here + b) + m + a);
    (here + b, m, a)
}

/// Every node is drawn in its place: the runs of inline nodes hold, for each of them, what
/// it says, behind what the nodes before it say, in the style that the emphasis, links and
/// images around it make; only the words that stand out have a style of their own.
#[verifier::spinoff_prover]
pub proof fn lemma_inline_nodes_are_drawn_right(
    theme: MarkdownTheme,
    nodes: Seq<NodeView>,
    j: int,
    end: int,
    style: Style,
    i: int,
) -> (r: (Seq<SpanView>, Seq<SpanView>, Seq<SpanView>))
    requires
        0 <= j <= i < end <= nodes.len(),
        leaves_are_bare(nodes, j, end),
    ensures
        placed(
            crate::markdown::preview::inline(theme, nodes, j, end, style),
            r.1,
            r.0,
            r.2,
            theme,
            nodes,
            j,
            i,
            dressed(theme, nodes, j, i, style),
        ),
    decreases end - j,
{
    let k = subtree_end(nodes, j, end);
    lemma_end_from(nodes, nodes[j].depth, j + 1, end);
    let look = dressed(theme, nodes, j, i, style);
    if i == j {
        lemma_first_node_is_drawn_right(theme, nodes, j, end, style)
    } else if i < k {
        let under = worn(theme, nodes[j].kind, style);
        lemma_subtree_encloses(nodes, j, end, i);
        let (b, m, a) = lemma_inline_nodes_are_drawn_right(theme, nodes, j + 1, k, under, i);
        lemma_inside_is_drawn_right(theme, nodes, j, end, style, i, look, b, m, a)
    } else {
        lemma_dressed_behind(theme, nodes, j, j, k, i, end, style);
        let (b, m, a) = lemma_inline_nodes_are_drawn_right(theme, nodes, k, end, style, i);
        lemma_behind_is_drawn_right(theme, nodes, j, end, style, i, look, b, m, a)
    }
}

// --- the whole document ---

/// The characters of a text that are no white space.
pub open spec fn letters(s: Seq<char>) -> Seq<char> {
    s.filter(|c: char| !white_space(c))
}

/// Whether `places` are places in `l`, in their order, at which the characters of `q` stand.
pub open spec fn stand_at(q: Seq<char>, l: Seq<char>, places: Seq<int>) -> bool {
    &&& places.len() == q.len()
    &&& forall|i: int| 0 <= i < q.len() ==> 0 <= #[trigger] places[i] < l.len() && l[places[i]] == q[i]
    &&& forall|i: int, j: int| 0 <= i < j < q.len() ==> places[i] < places[j]
}

/// Whether the characters of a text all stand in another one, in their order.
pub open spec fn within(q: Seq<char>, l: Seq<char>) -> bool {
    exists|places: Seq<int>| stand_at(q, l, places)
}

/// The text of rows, one after the other.
pub open spec fn page_text(rows: Seq<RowView>) -> Seq<char>
    decreases rows.len(),
{
    if rows.len() == 0 {
        Seq::empty()
    } else {
        page_text(rows.drop_last()) + text_of(rows.last().line)
    }
}

/// The text and the code that is written in the nodes from `j` to `end`.
pub open spec fn words(nodes: Seq<NodeView>, j: int, end: int) -> Seq<char>
    decreases end - j,
{
    if j >= end {
        Seq::empty()
    } else {
        (match nodes[j].kind {
            KindView::Text(t) => t,
            KindView::Code(t) => t,
            _ => Seq::empty(),
        }) + words(nodes, j + 1, end)
    }
}

proof fn lemma_letters_concat(a: Seq<char>, b: Seq<char>)
    ensures
        letters(a + b) == letters(a) + letters(b),
{
    Seq::filter_distributes_over_add(a, b, |c: char| !white_space(c));
}

proof fn lemma_letters_of_blank(s: Seq<char>)
    requires
        forall|i: int| 0 <= i < s.len() ==> white_space(#[trigger] s[i]),
    ensures
        letters(s) == Seq::<char>::empty(),
    decreases s.len(),
{
    reveal(Seq::filter);
    if s.len() > 0 {
        lemma_letters_of_blank(s.drop_last());
    }
}

proof fn lemma_within_itself(q: Seq<char>)
    ensures
        within(q, q),
{
    let places = Seq::new(q.len(), |i: int| i);
    assert(stand_at(q, q, places));
}

proof fn lemma_within_concat(a: Seq<char>, b: Seq<char>, c: Seq<char>, d: Seq<char>)
    requires
        within(a, b),
        within(c, d),
    ensures
        within(a + c, b + d),
{
    let f = choose|f: Seq<int>| stand_at(a, b, f);
    let g = choose|g: Seq<int>| stand_at(c, d, g);
    let h = Seq::new(
        a.len() + c.len(),
        |i: int|
            if i < a.len() {
                f[i]
            } else {
                b.len() + g[i - a.len()]
            },
    );
    assert forall|i: int| 0 <= i < (a + c).len() implies 0 <= #[trigger] h[i] < (b + d).len() && (b
        + d)[h[i]] == (a + c)[i] by {
        if i < a.len() {
            assert(0 <= f[i] < b.len());
        } else {
            assert(0 <= g[i - a.len()] < d.len());
        }
    }
    assert forall|i: int, j: int| 0 <= i < j < (a + c).len() implies h[i] < h[j] by {
        if j < a.len() {
            assert(f[i] < f[j]);
        } else if i >= a.len() {
            assert(g[i - a.len()] < g[j - a.len()]);
        } else {
            assert(0 <= f[i] < b.len());
            assert(0 <= g[j - a.len()] < d.len());
        }
    }
    assert(stand_at(a + c, b + d, h));
}

proof fn lemma_nothing_within(l: Seq<char>)
    ensures
        within(Seq::empty(), l),
{
    assert(stand_at(Seq::empty(), l, Seq::empty()));
}

/// What stands in a text stands in it with more before it.
proof fn lemma_within_behind(q: Seq<char>, lead: Seq<char>, l: Seq<char>)
    requires
        within(q, l),
    ensures
        within(q, lead + l),
{
    lemma_nothing_within(lead);
    lemma_within_concat(Seq::empty(), lead, q, l);
    assert(Seq::<char>::empty() + q =~= q);
}

proof fn lemma_within_passes_on(a: Seq<char>, b: Seq<char>, c: Seq<char>)
    requires
        within(a, b),
        within(b, c),
    ensures
        within(a, c),
{
    let f = choose|f: Seq<int>| stand_at(a, b, f);
    let g = choose|g: Seq<int>| stand_at(b, c, g);
    let h = Seq::new(a.len(), |i: int| g[f[i]]);
    assert forall|i: int| 0 <= i < a.len() implies 0 <= #[trigger] h[i] < c.len() && c[h[i]]
        == a[i] by {
        assert(0 <= f[i] < b.len());
        assert(0 <= g[f[i]] < c.len());
    }
    assert forall|i: int, j: int| 0 <= i < j < a.len() implies h[i] < h[j] by {
        assert(0 <= f[i] < b.len());
        assert(0 <= f[j] < b.len());
        assert(f[i] < f[j]);
        assert(g[f[i]] < g[f[j]]);
    }
    assert(stand_at(a, c, h));
}

proof fn lemma_page_text_concat(a: Seq<RowView>, b: Seq<RowView>)
    ensures
        page_text(a + b) == page_text(a) + page_text(b),
    decreases b.len(),
{
    if b.len() == 0 {
        assert(a + b =~= a);
        assert(page_text(a) + page_text(b) =~= page_text(a));
    } else {
        lemma_page_text_concat(a, b.drop_last());
        assert((a + b).drop_last() =~= a + b.drop_last());
        assert(page_text(a + b) =~= page_text(a) + page_text(b));
    }
}

/// Rows with the same text on each have the same text.
proof fn lemma_page_text_same(a: Seq<RowView>, b: Seq<RowView>)
    requires
        a.len() == b.len(),
        forall|i: int| 0 <= i < a.len() ==> text_of((#[trigger] a[i]).line) == text_of(b[i].line),
    ensures
        page_text(a) == page_text(b),
    decreases a.len(),
{
    if a.len() > 0 {
        lemma_page_text_same(a.drop_last(), b.drop_last());
    }
}

/// The text of the clusters from `a` to `b`.
spec fn cells_text(cells: Seq<ClusterView>, a: int, b: int) -> Seq<char>
    decreases b - a,
{
    if b <= a {
        Seq::empty()
    } else {
        cells_text(cells, a, b - 1) + cells[b - 1].text
    }
}

proof fn lemma_cells_text_splits(cells: Seq<ClusterView>, a: int, m: int, b: int)
    requires
        a <= m <= b,
    ensures
        cells_text(cells, a, b) == cells_text(cells, a, m) + cells_text(cells, m, b),
    decreases b - m,
{
    if m < b {
        lemma_cells_text_splits(cells, a, m, b - 1);
    }
    assert(cells_text(cells, a, b) =~= cells_text(cells, a, m) + cells_text(cells, m, b));
}

proof fn lemma_cells_text_same(c: Seq<ClusterView>, d: Seq<ClusterView>, off: int, n: int)
    requires
        forall|i: int| 0 <= i < n ==> (#[trigger] c[i]).text == d[off + i].text,
    ensures
        cells_text(c, 0, n) == cells_text(d, off, off + n),
    decreases n,
{
    if n > 0 {
        lemma_cells_text_same(c, d, off, n - 1);
    }
}

pub(crate) proof fn lemma_text_joins(text: Seq<char>, x: int, y: int, z: int)
    requires
        boundary(encode_utf8(text), x),
        boundary(encode_utf8(text), y),
        boundary(encode_utf8(text), z),
        x <= y <= z,
    ensures
        text_between(encode_utf8(text), x, z) == text_between(encode_utf8(text), x, y)
            + text_between(encode_utf8(text), y, z),
{
    let b = encode_utf8(text);
    let (l, r) = (text_between(b, x, y), text_between(b, y, z));
    lemma_slice_bytes(text, x, y);
    lemma_slice_bytes(text, y, z);
    lemma_slice_bytes(text, x, z);
    lemma_bytes_concat(l, r);
    assert(b.subrange(x, y) + b.subrange(y, z) =~= b.subrange(x, z));
    lemma_bytes_injective(text_between(b, x, z), l + r);
}

/// The clusters of a run say its text.
proof fn lemma_run_cells_upto(seg: SpanView, n: int)
    requires
        clusters_in_order(seg.text),
        0 <= n <= clusters(seg.text).len(),
    ensures
        cells_text(run_cells(seg), 0, n) == text_between(
            encode_utf8(seg.text),
            0,
            if n == clusters(seg.text).len() {
                byte_len(seg.text) as int
            } else {
                clusters(seg.text)[n] as int
            },
        ),
    decreases n,
{
    let t = seg.text;
    let b = encode_utf8(t);
    let s = clusters(t);
    encode_utf8_valid_utf8(t);
    lemma_boundary_ends(b);
    assert(b.subrange(0, 0) =~= encode_utf8(Seq::<char>::empty()));
    encode_utf8_decode_utf8(Seq::<char>::empty());
    if n > 0 {
        lemma_run_cells_upto(seg, n - 1);
        let y = s[n - 1] as int;
        let z = cluster_stop(t, n - 1);
        assert(boundary(b, y));
        if n < s.len() {
            assert(boundary(b, s[n] as int));
            assert(s[n - 1] < s[n]);
        }
        lemma_text_joins(t, 0, y, z);
        assert(run_cells(seg)[n - 1].text == cluster_text(t, n - 1));
    } else {
        if s.len() == 0 {
            assert(t =~= Seq::<char>::empty());
        }
        assert(text_between(b, 0, 0) == Seq::<char>::empty());
    }
}

proof fn lemma_run_cells_text(seg: SpanView)
    requires
        clusters_in_order(seg.text),
    ensures
        cells_text(run_cells(seg), 0, run_cells(seg).len() as int) == seg.text,
{
    let t = seg.text;
    lemma_run_cells_upto(seg, clusters(t).len() as int);
    assert(encode_utf8(t).subrange(0, byte_len(t) as int) =~= encode_utf8(t));
    encode_utf8_decode_utf8(t);
}

proof fn lemma_cells_text(segs: Seq<SpanView>)
    requires
        forall|t: Seq<char>| #[trigger] clusters_in_order(t),
    ensures
        cells_text(cells_of(segs), 0, cells_of(segs).len() as int) == text_of(segs),
    decreases segs.len(),
{
    if segs.len() > 0 {
        lemma_cells_text(segs.drop_last());
        let a = cells_of(segs.drop_last());
        let c = run_cells(segs.last());
        let all = cells_of(segs);
        assert(clusters_in_order(segs.last().text));
        lemma_run_cells_text(segs.last());
        lemma_cells_text_splits(all, 0, a.len() as int, all.len() as int);
        lemma_cells_text_same(a, all, 0, a.len() as int);
        lemma_cells_text_same(c, all, a.len() as int, c.len() as int);
    }
}

proof fn lemma_runs_between_text(cells: Seq<ClusterView>, a: int, b: int)
    requires
        0 <= a <= b <= cells.len(),
    ensures
        text_of(runs_between(cells, a, b)) == cells_text(cells, a, b),
    decreases b - a,
{
    let runs = runs_between(cells, a, b);
    if a < b {
        lemma_runs_between_text(cells, a, b - 1);
        assert(runs.drop_last() =~= runs_between(cells, a, b - 1));
        assert(runs.last().text == cells[b - 1].text);
    }
}

/// The rows that text is wrapped into say its letters.
#[verifier::spinoff_prover]
proof fn lemma_wrapped_letters(segs: Seq<SpanView>, width: usize, n: int)
    requires
        forall|t: Seq<char>| #[trigger] clusters_in_order(t),
        0 < n <= wrapped(segs, width, true).len(),
    ensures
        ({
            let cells = cells_of(segs);
            let w: usize = if width < 1 {
                1
            } else {
                width
            };
            letters(page_text(bare(wrapped(segs, width, true)).take(n))) == letters(
                cells_text(cells, 0, row_ranges(cells, w, true)[n - 1].1),
            )
        }),
    decreases n,
{
    let cells = cells_of(segs);
    let w: usize = if width < 1 {
        1
    } else {
        width
    };
    let ranges = row_ranges(cells, w, true);
    lemma_wrapping_is_lossless(cells, w, true);
    let rows = bare(wrapped(segs, width, true));
    let (a, b) = ranges[n - 1];
    assert(rows_join(cells, ranges, n - 1));
    assert(0 <= ranges[n - 1].0 <= ranges[n - 1].1 <= cells.len());
    lemma_merging_keeps_the_text(runs_between(cells, a, b));
    lemma_runs_between_text(cells, a, b);
    assert(rows.take(n).drop_last() =~= rows.take(n - 1));
    assert(text_of(rows[n - 1].line) == cells_text(cells, a, b));
    let before = page_text(rows.take(n - 1));
    lemma_letters_concat(before, cells_text(cells, a, b));
    lemma_cells_text_splits(cells, 0, a, b);
    lemma_letters_concat(cells_text(cells, 0, a), cells_text(cells, a, b));
    if n > 1 {
        lemma_wrapped_letters(segs, width, n - 1);
        let p = ranges[n - 2].1;
        assert(0 <= ranges[n - 2].0 <= ranges[n - 2].1 <= cells.len());
        if a == p + 1 {
            reveal_strlit("\n");
            assert(cells_text(cells, 0, a) == cells_text(cells, 0, p) + cells[p].text);
            lemma_letters_concat(cells_text(cells, 0, p), cells[p].text);
            lemma_letters_of_blank(cells[p].text);
            assert(letters(cells_text(cells, 0, p)) + Seq::<char>::empty() =~= letters(
                cells_text(cells, 0, p),
            ));
        }
    } else {
        assert(rows.take(0) =~= Seq::<RowView>::empty());
        assert(before =~= Seq::<char>::empty());
        assert(cells_text(cells, 0, 0) =~= Seq::<char>::empty());
    }
}

/// Wrapping keeps the letters of a text.
pub proof fn lemma_wrapping_keeps_the_letters(segs: Seq<SpanView>, width: usize)
    requires
        forall|t: Seq<char>| #[trigger] clusters_in_order(t),
    ensures
        letters(page_text(bare(wrapped(segs, width, true)))) == letters(text_of(segs)),
{
    let cells = cells_of(segs);
    let w: usize = if width < 1 {
        1
    } else {
        width
    };
    let n = wrapped(segs, width, true).len() as int;
    lemma_wrapping_is_lossless(cells, w, true);
    lemma_wrapped_letters(segs, width, n);
    lemma_cells_text(segs);
    assert(bare(wrapped(segs, width, true)).take(n) =~= bare(wrapped(segs, width, true)));
}

/// Whether the rows of `t` are those of `s` with more behind them, in which `w` stands.
pub open spec fn adds(s: Sheet, t: Sheet, w: Seq<char>) -> bool {
    exists|a: Seq<char>|
        letters(page_text(t.rows)) == letters(page_text(s.rows)) + a && #[trigger] within(w, a)
}

/// Whether a node is one of text: a paragraph or a heading.
pub open spec fn holds_text(kind: KindView) -> bool {
    kind is Paragraph || kind is Heading
}

/// Whether the nodes from `j` to `end` are blocks as documents have them, without tables and
/// nested less deep than quotes are shown: what never holds other nodes holds none, text
/// stands in paragraphs and headings, no list item does, and lists hold items.
pub open spec fn well_nested(
    nodes: Seq<NodeView>,
    j: int,
    end: int,
    base: int,
    depth: int,
) -> bool {
    &&& forall|i: int|
        j <= i < end ==> base <= (#[trigger] nodes[i]).depth < base + MAX_QUOTE_DEPTH - depth
            && !(nodes[i].kind is Table)
    &&& forall|i: int|
        j <= i && i + 1 < end && !(nodes[i].kind is TaskItem) && (holds_none(
            (#[trigger] nodes[i]).kind,
        ) || nodes[i].kind is CodeBlock || nodes[i].kind is ThematicBreak
            || nodes[i].kind is HtmlBlock) ==> nodes[i + 1].depth <= nodes[i].depth
    &&& forall|a: int, i: int|
        j <= a < i < end && holds_text((#[trigger] nodes[a]).kind) && #[trigger] encloses(
            nodes,
            a,
            i,
        ) ==> !(nodes[i].kind is TaskItem)
    &&& forall|i: int|
        j <= i < end && ((#[trigger] nodes[i]).kind is Text || nodes[i].kind is Code)
            ==> in_text(nodes, j, i)
    &&& forall|i: int|
        j <= i && i + 1 < end ==> nodes[i + 1].depth <= (#[trigger] nodes[i]).depth + 1
    &&& forall|a: int, i: int|
        j <= a < i < end && (#[trigger] nodes[a]).kind is List && #[trigger] encloses(nodes, a, i)
            && nodes[i].depth == nodes[a].depth + 1 ==> !holds_text(nodes[i].kind)
}

/// Whether a node stands in a paragraph or a heading that begins at `j` or later.
pub open spec fn in_text(nodes: Seq<NodeView>, j: int, i: int) -> bool {
    exists|a: int| j <= a && #[trigger] encloses(nodes, a, i) && holds_text(nodes[a].kind)
}

/// Whether the nodes behind `i` up to `end` all lie under it.
pub open spec fn rooted(nodes: Seq<NodeView>, i: int, end: int) -> bool {
    forall|m: int| i < m < end ==> (#[trigger] nodes[m]).depth > nodes[i].depth
}

proof fn lemma_words_split(nodes: Seq<NodeView>, j: int, k: int, end: int)
    requires
        j <= k <= end,
    ensures
        words(nodes, j, end) == words(nodes, j, k) + words(nodes, k, end),
    decreases k - j,
{
    if j < k {
        lemma_words_split(nodes, j + 1, k, end);
    }
    assert(words(nodes, j, end) =~= words(nodes, j, k) + words(nodes, k, end));
}

proof fn lemma_words_are_in_the_text(nodes: Seq<NodeView>, j: int, end: int, hb: bool)
    ensures
        within(letters(words(nodes, j, end)), letters(all_text(nodes, j, end, hb))),
    decreases end - j,
{
    if j >= end {
        lemma_within_itself(letters(words(nodes, j, end)));
    } else {
        lemma_words_are_in_the_text(nodes, j + 1, end, hb);
        let own = own_text(nodes[j].kind, hb);
        let mine = match nodes[j].kind {
            KindView::Text(t) => t,
            KindView::Code(t) => t,
            _ => Seq::empty(),
        };
        lemma_letters_concat(own, all_text(nodes, j + 1, end, hb));
        lemma_letters_concat(mine, words(nodes, j + 1, end));
        if nodes[j].kind is Text || nodes[j].kind is Code {
            lemma_within_itself(letters(own));
        } else {
            lemma_letters_of_blank(mine);
            lemma_nothing_within(letters(own));
        }
        lemma_within_concat(
            letters(mine),
            letters(own),
            letters(words(nodes, j + 1, end)),
            letters(all_text(nodes, j + 1, end, hb)),
        );
    }
}

proof fn lemma_adds_nothing(s: Sheet, t: Sheet)
    requires
        exists|a: Seq<char>| #[trigger] letters(page_text(s.rows)).add(a) == letters(page_text(t.rows)),
    ensures
        adds(s, t, Seq::empty()),
{
    let a = choose|a: Seq<char>|
        #[trigger] letters(page_text(s.rows)).add(a) == letters(page_text(t.rows));
    lemma_nothing_within(a);
}

proof fn lemma_adds_rows(s: Sheet, t: Sheet, rows: Seq<RowView>, w: Seq<char>)
    requires
        t.rows == s.rows + rows,
        within(w, letters(page_text(rows))),
    ensures
        adds(s, t, w),
{
    lemma_page_text_concat(s.rows, rows);
    lemma_letters_concat(page_text(s.rows), page_text(rows));
    assert(within(w, letters(page_text(rows))));
}

proof fn lemma_adds_a_row(s: Sheet, row: RowView)
    ensures
        adds(s, s.plus_row(row), Seq::empty()),
{
    lemma_nothing_within(letters(page_text(seq![row])));
    assert(s.plus_row(row).rows =~= s.rows + seq![row]);
    lemma_adds_rows(s, s.plus_row(row), seq![row], Seq::empty());
}

proof fn lemma_labels_keep_the_text(t: Sheet, k: int, line: usize)
    requires
        0 <= k,
    ensures
        page_text(t.labelled(k, line).rows) == page_text(t.rows),
{
    let u = t.labelled(k, line);
    assert forall|i: int| 0 <= i < u.rows.len() implies text_of((#[trigger] u.rows[i]).line)
        == text_of(t.rows[i].line) by {}
    lemma_page_text_same(u.rows, t.rows);
}

proof fn lemma_adds_then(s: Sheet, t: Sheet, u: Sheet, v: Seq<char>, w: Seq<char>)
    requires
        adds(s, t, v),
        adds(t, u, w),
    ensures
        adds(s, u, v + w),
{
    let a = choose|a: Seq<char>|
        letters(page_text(t.rows)) == letters(page_text(s.rows)) + a && #[trigger] within(v, a);
    let b = choose|b: Seq<char>|
        letters(page_text(u.rows)) == letters(page_text(t.rows)) + b && #[trigger] within(w, b);
    lemma_within_concat(v, a, w, b);
    assert(letters(page_text(u.rows)) =~= letters(page_text(s.rows)) + (a + b));
}

/// What is added to an empty sheet stands on it.
proof fn lemma_added_inside(s: Sheet, inner: Sheet, w: Seq<char>)
    requires
        adds(s.inside(), inner, w),
    ensures
        within(w, letters(page_text(inner.rows))),
{
    let a = choose|a: Seq<char>|
        letters(page_text(inner.rows)) == letters(page_text(s.inside().rows)) + a
            && #[trigger] within(w, a);
    assert(page_text(s.inside().rows) =~= Seq::<char>::empty());
    lemma_letters_of_blank(Seq::<char>::empty());
    assert(letters(page_text(inner.rows)) =~= a);
}

proof fn lemma_prefixes_keep_the_text(rows: Seq<RowView>, first: SpanView, cont: SpanView, n: int)
    requires
        0 <= n <= rows.len(),
    ensures
        within(
            letters(page_text(rows.take(n))),
            letters(page_text(prefixed(rows, first, cont).take(n))),
        ),
    decreases n,
{
    let more = prefixed(rows, first, cont);
    if n > 0 {
        lemma_prefixes_keep_the_text(rows, first, cont, n - 1);
        assert(rows.take(n).drop_last() =~= rows.take(n - 1));
        assert(more.take(n).drop_last() =~= more.take(n - 1));
        let lead = if n == 1 {
            first
        } else {
            cont
        };
        let line = rows[n - 1].line;
        assert(more[n - 1].line == seq![lead] + line);
        lemma_text_of_concat(seq![lead], line);
        lemma_text_of_one(lead);
        lemma_letters_concat(lead.text, text_of(line));
        lemma_within_itself(letters(text_of(line)));
        lemma_within_behind(letters(text_of(line)), letters(lead.text), letters(text_of(line)));
        lemma_letters_concat(page_text(rows.take(n - 1)), text_of(line));
        lemma_letters_concat(page_text(more.take(n - 1)), lead.text + text_of(line));
        lemma_within_concat(
            letters(page_text(rows.take(n - 1))),
            letters(page_text(more.take(n - 1))),
            letters(text_of(line)),
            letters(lead.text) + letters(text_of(line)),
        );
    } else {
        assert(rows.take(0) =~= Seq::<RowView>::empty());
        assert(more.take(0) =~= Seq::<RowView>::empty());
        lemma_within_itself(letters(page_text(Seq::<RowView>::empty())));
    }
}

proof fn lemma_prefixed_within(rows: Seq<RowView>, first: SpanView, cont: SpanView, w: Seq<char>)
    requires
        within(w, letters(page_text(rows))),
    ensures
        within(w, letters(page_text(prefixed(rows, first, cont)))),
{
    let more = prefixed(rows, first, cont);
    lemma_prefixes_keep_the_text(rows, first, cont, rows.len() as int);
    assert(rows.take(rows.len() as int) =~= rows);
    assert(more.take(rows.len() as int) =~= more);
    lemma_within_passes_on(w, letters(page_text(rows)), letters(page_text(more)));
}

proof fn lemma_line_text_restyled(line: Seq<SpanView>, other: Seq<SpanView>)
    requires
        line.len() == other.len(),
        forall|i: int| 0 <= i < line.len() ==> (#[trigger] line[i]).text == other[i].text,
    ensures
        text_of(line) == text_of(other),
    decreases line.len(),
{
    if line.len() > 0 {
        lemma_line_text_restyled(line.drop_last(), other.drop_last());
    }
}

proof fn lemma_restyling_keeps_the_text(rows: Seq<RowView>, from: Style, to: Style)
    ensures
        page_text(restyled(rows, from, to)) == page_text(rows),
{
    let other = restyled(rows, from, to);
    assert forall|i: int| 0 <= i < rows.len() implies text_of((#[trigger] other[i]).line) == text_of(
        rows[i].line,
    ) by {
        lemma_line_text_restyled(other[i].line, rows[i].line);
    }
    lemma_page_text_same(other, rows);
}

proof fn lemma_blank_once_trimmed(s: Seq<char>)
    requires
        trimmed(s).len() == 0,
    ensures
        forall|i: int| 0 <= i < s.len() ==> white_space(#[trigger] s[i]),
    decreases s.len(),
{
    if s.len() > 0 {
        if white_space(s[0]) {
            lemma_blank_once_trimmed(s.skip(1));
            assert forall|i: int| 0 <= i < s.len() implies white_space(#[trigger] s[i]) by {
                if i > 0 {
                    assert(s.skip(1)[i - 1] == s[i]);
                }
            }
        } else {
            lemma_trim_end_keeps(s);
        }
    }
}

proof fn lemma_trim_end_keeps(s: Seq<char>)
    requires
        s.len() > 0,
        !white_space(s[0]),
    ensures
        crate::strings::trim_end(s).len() > 0,
    decreases s.len(),
{
    if white_space(s.last()) {
        lemma_trim_end_keeps(s.drop_last());
    }
}

proof fn lemma_blank_line(line: Seq<SpanView>)
    requires
        forall|k: int| 0 <= k < line.len() ==> trimmed((#[trigger] line[k]).text).len() == 0,
    ensures
        letters(text_of(line)) == Seq::<char>::empty(),
    decreases line.len(),
{
    if line.len() == 0 {
        lemma_letters_of_blank(text_of(line));
    } else {
        lemma_blank_line(line.drop_last());
        let last = line[line.len() - 1];
        assert(trimmed(last.text).len() == 0);
        lemma_blank_once_trimmed(last.text);
        lemma_letters_of_blank(last.text);
        lemma_letters_concat(text_of(line.drop_last()), last.text);
        assert(letters(text_of(line)) =~= Seq::<char>::empty());
    }
}

proof fn lemma_blank_rows(rows: Seq<RowView>)
    requires
        all_blank(rows),
    ensures
        letters(page_text(rows)) == Seq::<char>::empty(),
    decreases rows.len(),
{
    if rows.len() == 0 {
        lemma_letters_of_blank(page_text(rows));
    } else {
        let less = rows.drop_last();
        assert forall|i: int, k: int|
            0 <= i < less.len() && 0 <= k < less[i].line.len() implies trimmed(
            (#[trigger] less[i].line[k]).text,
        ).len() == 0 by {
            assert(less[i].line[k] == rows[i].line[k]);
        }
        lemma_blank_rows(less);
        let last = rows[rows.len() - 1].line;
        assert forall|k: int| 0 <= k < last.len() implies trimmed((#[trigger] last[k]).text).len()
            == 0 by {
            assert(rows[rows.len() - 1].line[k] == last[k]);
        }
        lemma_blank_line(last);
        lemma_letters_concat(page_text(less), text_of(last));
        assert(letters(page_text(rows)) =~= Seq::<char>::empty());
    }
}

/// The nodes under a node are well nested, and are no text themselves.
#[verifier::spinoff_prover]
proof fn lemma_nested_under(nodes: Seq<NodeView>, i: int, end: int, base: int, depth: int, next: int)
    requires
        i < end,
        well_nested(nodes, i, end, base, depth),
        rooted(nodes, i, end),
        depth <= next <= depth + 1,
    ensures
        !(nodes[i].kind is Text) && !(nodes[i].kind is Code),
        words(nodes, i, end) == words(nodes, i + 1, end),
        !holds_text(nodes[i].kind) ==> well_nested(
            nodes,
            i + 1,
            end,
            nodes[i].depth + 1,
            next,
        ),
        holds_text(nodes[i].kind) ==> leaves_are_bare(nodes, i + 1, end),
        depth < MAX_QUOTE_DEPTH,
{
    lemma_roots_are_no_text(nodes, i, end, base, depth);
    if holds_text(nodes[i].kind) {
        lemma_bare_under(nodes, i, end, base, depth);
    } else {
        lemma_nested_blocks_under(nodes, i, end, base, depth, next);
    }
}

#[verifier::spinoff_prover]
#[verifier::rlimit(60)]
proof fn lemma_roots_are_no_text(nodes: Seq<NodeView>, i: int, end: int, base: int, depth: int)
    requires
        i < end,
        well_nested(nodes, i, end, base, depth),
    ensures
        !(nodes[i].kind is Text) && !(nodes[i].kind is Code),
        words(nodes, i, end) == words(nodes, i + 1, end),
        depth < MAX_QUOTE_DEPTH,
{
    assert(base <= nodes[i].depth < base + MAX_QUOTE_DEPTH - depth);
    if nodes[i].kind is Text || nodes[i].kind is Code {
        assert(in_text(nodes, i, i));
    }
    assert(words(nodes, i, end) =~= words(nodes, i + 1, end));
}

#[verifier::spinoff_prover]
#[verifier::rlimit(60)]
proof fn lemma_bare_under(nodes: Seq<NodeView>, i: int, end: int, base: int, depth: int)
    requires
        i < end,
        well_nested(nodes, i, end, base, depth),
        rooted(nodes, i, end),
        holds_text(nodes[i].kind),
    ensures
        leaves_are_bare(nodes, i + 1, end),
{
    assert forall|m: int|
        i + 1 <= m && m + 1 < end && holds_none((#[trigger] nodes[m]).kind) implies nodes[m + 1].depth
        <= nodes[m].depth by {
        assert(encloses(nodes, i, m));
    }
}

#[verifier::spinoff_prover]
#[verifier::rlimit(60)]
proof fn lemma_nested_blocks_under(
    nodes: Seq<NodeView>,
    i: int,
    end: int,
    base: int,
    depth: int,
    next: int,
)
    requires
        i < end,
        well_nested(nodes, i, end, base, depth),
        rooted(nodes, i, end),
        depth <= next <= depth + 1,
        !holds_text(nodes[i].kind),
    ensures
        well_nested(nodes, i + 1, end, nodes[i].depth + 1, next),
{
    assert(base <= nodes[i].depth < base + MAX_QUOTE_DEPTH - depth);
    assert forall|m: int|
        i + 1 <= m < end && ((#[trigger] nodes[m]).kind is Text
            || nodes[m].kind is Code) implies in_text(nodes, i + 1, m) by {
        assert(in_text(nodes, i, m));
        let a = choose|a: int|
            i <= a && #[trigger] encloses(nodes, a, m) && holds_text(nodes[a].kind);
        assert(i + 1 <= a && encloses(nodes, a, m));
    }
    assert forall|m: int| i + 1 <= m < end implies nodes[i].depth + 1 <= (#[trigger] nodes[m]).depth
        < nodes[i].depth + 1 + MAX_QUOTE_DEPTH - next && !(nodes[m].kind is Table) by {
        assert(base <= nodes[m].depth < base + MAX_QUOTE_DEPTH - depth);
    }
}

/// A subtree and what is behind it are well nested.
#[verifier::spinoff_prover]
#[verifier::rlimit(60)]
proof fn lemma_nested_apart(nodes: Seq<NodeView>, j: int, end: int, base: int, depth: int)
    requires
        0 <= j < end,
        well_nested(nodes, j, end, base, depth),
    ensures
        ({
            let k = subtree_end(nodes, j, end);
            &&& j < k <= end
            &&& rooted(nodes, j, k)
            &&& well_nested(nodes, j, k, base, depth)
            &&& well_nested(nodes, k, end, base, depth)
        }),
{
    let k = subtree_end(nodes, j, end);
    lemma_end_from(nodes, nodes[j].depth, j + 1, end);
    assert forall|m: int| j < m < k implies (#[trigger] nodes[m]).depth > nodes[j].depth by {
        lemma_subtree_is_deeper(nodes, nodes[j].depth, j + 1, end, m);
    }
    assert forall|m: int|
        k <= m < end && ((#[trigger] nodes[m]).kind is Text || nodes[m].kind is Code) implies in_text(
        nodes,
        k,
        m,
    ) by {
        assert(in_text(nodes, j, m));
        let a = choose|a: int| j <= a && #[trigger] encloses(nodes, a, m) && holds_text(nodes[a].kind);
        if a < k {
            lemma_subtree_is_deeper(nodes, nodes[j].depth, j + 1, end, a);
            assert(nodes[k].depth <= nodes[j].depth);
            assert(nodes[k].depth > nodes[a].depth);
        }
        assert(k <= a && encloses(nodes, a, m));
    }
    assert forall|m: int|
        j <= m < k && ((#[trigger] nodes[m]).kind is Text || nodes[m].kind is Code) implies in_text(
        nodes,
        j,
        m,
    ) by {}
}

/// Whether a scene can be seen whole: no block is shown as source.
pub open spec fn shown_whole(scene: Scene) -> bool {
    scene.hole is None
}

/// The letters of text, behind a lead, stand in the rows that it is wrapped into.
#[verifier::spinoff_prover]
proof fn lemma_text_is_added(
    theme: MarkdownTheme,
    nodes: Seq<NodeView>,
    j: int,
    end: int,
    style: Style,
    lead: Seq<SpanView>,
    width: usize,
    s: Sheet,
)
    requires
        0 <= j <= end <= nodes.len(),
        leaves_are_bare(nodes, j, end),
        forall|t: Seq<char>| #[trigger] clusters_in_order(t),
    ensures
        adds(
            s,
            s.plus_rows(bare(wrapped(lead + crate::markdown::preview::inline(theme, nodes, j, end, style), width, true))),
            letters(words(nodes, j, end)),
        ),
{
    let runs = crate::markdown::preview::inline(theme, nodes, j, end, style);
    let rows = bare(wrapped(lead + runs, width, true));
    lemma_wrapping_keeps_the_letters(lead + runs, width);
    lemma_text_of_concat(lead, runs);
    lemma_letters_concat(text_of(lead), text_of(runs));
    lemma_inline_text_is_kept(theme, nodes, j, end, style);
    lemma_words_are_in_the_text(nodes, j, end, theme.hard_breaks);
    lemma_within_behind(letters(words(nodes, j, end)), letters(text_of(lead)), letters(text_of(runs)));
    lemma_adds_rows(s, s.plus_rows(rows), rows, letters(words(nodes, j, end)));
}

/// What the inside of a container says stands behind its prefix.
proof fn lemma_prefixed_is_added(
    s: Sheet,
    t: Sheet,
    inner: Seq<RowView>,
    first: SpanView,
    cont: SpanView,
    w: Seq<char>,
)
    requires
        within(w, letters(page_text(inner))),
        t.rows == s.rows + prefixed(inner, first, cont),
    ensures
        adds(s, t, w),
{
    lemma_prefixed_within(inner, first, cont, w);
    lemma_adds_rows(s, t, prefixed(inner, first, cont), w);
}

proof fn lemma_adds_and_labels(s: Sheet, t: Sheet, k: int, line: usize, w: Seq<char>)
    requires
        adds(s, t, w),
        0 <= k,
    ensures
        adds(s, t.labelled(k, line), w),
{
    lemma_labels_keep_the_text(t, k, line);
    let a = choose|a: Seq<char>|
        letters(page_text(t.rows)) == letters(page_text(s.rows)) + a && #[trigger] within(w, a);
    assert(within(w, a));
}

proof fn lemma_no_words(nodes: Seq<NodeView>, i: int, end: int)
    requires
        end <= i + 1,
        !(nodes[i].kind is Text) && !(nodes[i].kind is Code),
    ensures
        letters(words(nodes, i, end)) == Seq::<char>::empty(),
{
    if i < end {
        assert(words(nodes, i + 1, end) =~= Seq::<char>::empty());
        assert(words(nodes, i, end) =~= Seq::<char>::empty());
    } else {
        assert(words(nodes, i, end) =~= Seq::<char>::empty());
    }
    lemma_letters_of_blank(Seq::<char>::empty());
}

/// A block shows the letters of its text.
#[verifier::spinoff_prover]
proof fn lemma_block_is_shown(
    scene: Scene,
    nodes: Seq<NodeView>,
    i: int,
    end: int,
    width: usize,
    depth: int,
    s: Sheet,
    base: int,
)
    requires
        0 <= i < end <= nodes.len(),
        shown_whole(scene),
        well_nested(nodes, i, end, base, depth),
        rooted(nodes, i, end),
        forall|t: Seq<char>| #[trigger] clusters_in_order(t),
    ensures
        adds(s, block(scene, nodes, i, end, width, depth, s), letters(words(nodes, i, end))),
    decreases end - i, 0int,
{
    let n = nodes[i];
    let theme = scene.theme;
    let w = letters(words(nodes, i, end));
    let under = n.depth + 1;
    let t = unlabelled(scene, nodes, i, end, width, depth, s);
    lemma_nested_under(nodes, i, end, base, depth, depth);
    match n.kind {
        KindView::Heading(level) => {
            let lead = if theme.heading_glyphs {
                seq![shown(seq![glyph_of(level), ' '], theme.heading_of(level))]
            } else {
                Seq::<SpanView>::empty()
            };
            let runs = crate::markdown::preview::inline(theme, nodes, i + 1, end, theme.heading_of(level));
            assert(heading_runs(theme, level, runs) =~= lead + runs);
            lemma_text_is_added(theme, nodes, i + 1, end, theme.heading_of(level), lead, width, s);
        },
        KindView::Paragraph => {
            let lead = Seq::<SpanView>::empty();
            let runs = crate::markdown::preview::inline(theme, nodes, i + 1, end, theme.text);
            assert(lead + runs =~= runs);
            lemma_text_is_added(theme, nodes, i + 1, end, theme.text, lead, width, s);
        },
        KindView::List { marks, start } => {
            assert forall|m: int|
                i + 1 <= m < end && (#[trigger] nodes[m]).depth == under implies !holds_text(
                nodes[m].kind,
            ) by {
                assert(encloses(nodes, i, m));
            }
            if i + 1 < end {
                assert(nodes[i + 1].depth <= nodes[i].depth + 1);
            }
            lemma_list_is_shown(scene, nodes, i + 1, end, marks, start, None, width, depth, s, under);
        },
        KindView::Quote => {
            lemma_nested_under(nodes, i, end, base, depth, depth + 1);
            let inner = children(
                scene,
                nodes,
                i + 1,
                end,
                inner_width(width, 2),
                depth + 1,
                true,
                true,
                s.inside(),
            );
            lemma_children_are_shown(
                scene,
                nodes,
                i + 1,
                end,
                inner_width(width, 2),
                depth + 1,
                true,
                true,
                s.inside(),
                under,
            );
            lemma_added_inside(s, inner, w);
            lemma_restyling_keeps_the_text(inner.rows, theme.text, theme.quote);
            let bar = shown(seq!['\u{2503}', ' '], theme.quote_bar);
            lemma_prefixed_is_added(s, t, restyled(inner.rows, theme.text, theme.quote), bar, bar, w);
        },
        KindView::CodeBlock { fenced, info, literal } => {
            if i + 1 < end {
                assert(nodes[i + 1].depth <= nodes[i].depth);
            }
            lemma_no_words(nodes, i, end);
            let from = n.start_line.saturating_add(
                if fenced {
                    1
                } else {
                    0
                },
            );
            let rows = code_rows(scene.look.rows(first_word(info), literal, width), from);
            lemma_nothing_within(letters(page_text(rows)));
            lemma_adds_rows(s, t, rows, w);
        },
        KindView::ThematicBreak => {
            if i + 1 < end {
                assert(nodes[i + 1].depth <= nodes[i].depth);
            }
            lemma_no_words(nodes, i, end);
            lemma_adds_a_row(
                s,
                RowView {
                    line: seq![shown(repeated('\u{2501}', width as int), theme.rule)],
                    source: None,
                },
            );
        },
        KindView::Table(_) => {},
        KindView::HtmlBlock(literal) => {
            if i + 1 < end {
                assert(nodes[i + 1].depth <= nodes[i].depth);
            }
            lemma_no_words(nodes, i, end);
            let rows = html_rows(lines_from(literal, 0), n.start_line, theme.html);
            lemma_nothing_within(letters(page_text(rows)));
            lemma_adds_rows(s, t, rows, w);
        },
        KindView::FootnoteDefinition(name) => {
            let label = footnote_label(name);
            let inner = children(
                scene,
                nodes,
                i + 1,
                end,
                inner_width(width, columns(label)),
                depth,
                false,
                true,
                s.inside(),
            );
            lemma_children_are_shown(
                scene,
                nodes,
                i + 1,
                end,
                inner_width(width, columns(label)),
                depth,
                false,
                true,
                s.inside(),
                under,
            );
            lemma_added_inside(s, inner, w);
            lemma_prefixed_is_added(
                s,
                t,
                inner.rows,
                shown(label, theme.list_marker),
                raw(repeated(' ', columns(label) as int)),
                w,
            );
        },
        _ => {
            lemma_children_are_shown(scene, nodes, i + 1, end, width, depth, false, true, s, under);
        },
    }
    lemma_adds_and_labels(s, t, s.rows.len() as int, n.start_line, w);
}

/// A block before its first row is labelled.
spec fn unlabelled(
    scene: Scene,
    nodes: Seq<NodeView>,
    i: int,
    end: int,
    width: usize,
    depth: int,
    s: Sheet,
) -> Sheet {
    let n = nodes[i];
    let theme = scene.theme;
    match n.kind {
        KindView::Heading(level) => s.plus_rows(
            bare(
                wrapped(
                    heading_runs(
                        theme,
                        level,
                        crate::markdown::preview::inline(theme, nodes, i + 1, end, theme.heading_of(level)),
                    ),
                    width,
                    true,
                ),
            ),
        ),
        KindView::Paragraph => s.plus_rows(
            bare(wrapped(crate::markdown::preview::inline(theme, nodes, i + 1, end, theme.text), width, true)),
        ),
        KindView::List { marks, start } => list(
            scene,
            nodes,
            i + 1,
            end,
            marks,
            start,
            None,
            width,
            depth,
            s,
        ),
        KindView::Quote => quote(
            scene,
            children(
                scene,
                nodes,
                i + 1,
                end,
                inner_width(width, 2),
                depth + 1,
                true,
                true,
                s.inside(),
            ),
            s,
        ),
        KindView::CodeBlock { fenced, info, literal } => s.plus_rows(
            code_rows(
                scene.look.rows(first_word(info), literal, width),
                n.start_line.saturating_add(
                    if fenced {
                        1
                    } else {
                        0
                    },
                ),
            ),
        ),
        KindView::ThematicBreak => s.plus_row(
            RowView {
                line: seq![shown(repeated('\u{2501}', width as int), theme.rule)],
                source: None,
            },
        ),
        KindView::Table(_) => s,
        KindView::HtmlBlock(literal) => s.plus_rows(
            html_rows(lines_from(literal, 0), n.start_line, theme.html),
        ),
        KindView::FootnoteDefinition(name) => footnote(
            theme,
            name,
            children(
                scene,
                nodes,
                i + 1,
                end,
                inner_width(width, columns(footnote_label(name))),
                depth,
                false,
                true,
                s.inside(),
            ),
            s,
        ),
        _ => children(scene, nodes, i + 1, end, width, depth, false, true, s),
    }
}

/// Blocks one after the other show the letters of their text.
#[verifier::spinoff_prover]
proof fn lemma_children_are_shown(
    scene: Scene,
    nodes: Seq<NodeView>,
    j: int,
    end: int,
    width: usize,
    depth: int,
    loose: bool,
    first: bool,
    s: Sheet,
    base: int,
)
    requires
        0 <= j <= end <= nodes.len(),
        shown_whole(scene),
        well_nested(nodes, j, end, base, depth),
        forall|t: Seq<char>| #[trigger] clusters_in_order(t),
    ensures
        adds(
            s,
            children(scene, nodes, j, end, width, depth, loose, first, s),
            letters(words(nodes, j, end)),
        ),
    decreases end - j, 1int,
{
    let none = Seq::<char>::empty();
    if j >= end {
        assert(words(nodes, j, end) =~= none);
        lemma_letters_of_blank(none);
        assert(letters(page_text(s.rows)).add(none) =~= letters(page_text(s.rows)));
        lemma_adds_nothing(s, s);
    } else {
        let k = subtree_end(nodes, j, end);
        lemma_nested_apart(nodes, j, end, base, depth);
        let blank = RowView { line: Seq::empty(), source: None };
        let t = if !first && loose {
            s.plus_row(blank)
        } else {
            s
        };
        if !first && loose {
            lemma_adds_a_row(s, blank);
        } else {
            assert(letters(page_text(s.rows)).add(none) =~= letters(page_text(s.rows)));
            lemma_adds_nothing(s, s);
        }
        let u = block(scene, nodes, j, k, width, depth, t);
        let z = children(scene, nodes, k, end, width, depth, loose, false, u);
        lemma_block_is_shown(scene, nodes, j, k, width, depth, t, base);
        lemma_children_are_shown(scene, nodes, k, end, width, depth, loose, false, u, base);
        let (w1, w2) = (letters(words(nodes, j, k)), letters(words(nodes, k, end)));
        lemma_adds_then(s, t, u, none, w1);
        lemma_adds_then(s, u, z, none + w1, w2);
        lemma_words_split(nodes, j, k, end);
        lemma_letters_concat(words(nodes, j, k), words(nodes, k, end));
        assert(none + w1 + w2 =~= w1 + w2);
    }
}

/// The content of a list item shows the letters of its text.
#[verifier::spinoff_prover]
proof fn lemma_item_content_is_shown(
    scene: Scene,
    nodes: Seq<NodeView>,
    j: int,
    end: int,
    width: usize,
    depth: int,
    first: bool,
    s: Sheet,
    base: int,
)
    requires
        0 <= j <= end <= nodes.len(),
        shown_whole(scene),
        well_nested(nodes, j, end, base, depth),
        forall|t: Seq<char>| #[trigger] clusters_in_order(t),
    ensures
        adds(
            s,
            item_content(scene, nodes, j, end, width, depth, first, s),
            letters(words(nodes, j, end)),
        ),
    decreases end - j, 1int,
{
    let none = Seq::<char>::empty();
    if j >= end {
        assert(words(nodes, j, end) =~= none);
        lemma_letters_of_blank(none);
        assert(letters(page_text(s.rows)).add(none) =~= letters(page_text(s.rows)));
        lemma_adds_nothing(s, s);
    } else {
        let k = subtree_end(nodes, j, end);
        lemma_nested_apart(nodes, j, end, base, depth);
        let theme = scene.theme;
        let t = if first && nodes[j].kind is Paragraph {
            s.plus_rows(bare(wrapped(crate::markdown::preview::inline(theme, nodes, j + 1, k, theme.text), width, true)))
        } else {
            block(scene, nodes, j, k, width, depth, s)
        };
        if first && nodes[j].kind is Paragraph {
            lemma_nested_under(nodes, j, k, base, depth, depth);
            let runs = crate::markdown::preview::inline(theme, nodes, j + 1, k, theme.text);
            assert(none_runs() + runs =~= runs);
            lemma_text_is_added(theme, nodes, j + 1, k, theme.text, none_runs(), width, s);
        } else {
            lemma_block_is_shown(scene, nodes, j, k, width, depth, s, base);
        }
        let z = item_content(scene, nodes, k, end, width, depth, false, t);
        lemma_item_content_is_shown(scene, nodes, k, end, width, depth, false, t, base);
        let (w1, w2) = (letters(words(nodes, j, k)), letters(words(nodes, k, end)));
        lemma_adds_then(s, t, z, w1, w2);
        lemma_words_split(nodes, j, k, end);
        lemma_letters_concat(words(nodes, j, k), words(nodes, k, end));
    }
}

spec fn none_runs() -> Seq<SpanView> {
    Seq::empty()
}

/// A list item shows the letters of its text.
#[verifier::spinoff_prover]
proof fn lemma_list_item_is_shown(
    scene: Scene,
    nodes: Seq<NodeView>,
    j: int,
    k: int,
    marks: ListInfo,
    ordinal: usize,
    prev_end: Option<usize>,
    width: usize,
    depth: int,
    s: Sheet,
    base: int,
)
    requires
        0 <= j < k <= nodes.len(),
        shown_whole(scene),
        well_nested(nodes, j, k, base, depth),
        rooted(nodes, j, k),
        !holds_text(nodes[j].kind),
        forall|t: Seq<char>| #[trigger] clusters_in_order(t),
    ensures
        adds(
            s,
            list_item(scene, nodes, j, k, marks, ordinal, prev_end, width, depth, s),
            letters(words(nodes, j, k)),
        ),
    decreases k - j, 1int,
{
    let n = nodes[j];
    let none = Seq::<char>::empty();
    let w = letters(words(nodes, j, k));
    let item_start = n.start_line.saturating_sub(1);
    let t = separated(scene, marks.tight, prev_end, item_start, s);
    lemma_nested_under(nodes, j, k, base, depth, depth);
    assert(adds(s, t, none)) by {
        if t == s {
            assert(letters(page_text(s.rows)).add(none) =~= letters(page_text(s.rows)));
            lemma_adds_nothing(s, s);
        } else {
            lemma_adds_a_row(s, t.rows.last());
            assert(t.rows =~= s.plus_row(t.rows.last()).rows);
        }
    }
    let marker = marker_of(n.kind, marks, ordinal, '\u{2022}', scene.theme);
    let wide = inner_width(width, columns(marker.text.push(' ')));
    let inner = item_content(scene, nodes, j + 1, k, wide, depth, true, t.inside());
    lemma_item_content_is_shown(
        scene,
        nodes,
        j + 1,
        k,
        wide,
        depth,
        true,
        t.inside(),
        n.depth + 1,
    );
    lemma_added_inside(t, inner, w);
    let u = marked_item(scene.theme, n.kind, marks, ordinal, item_start, inner, t);
    let label = item_start.saturating_add(1);
    if all_blank(inner.rows) {
        lemma_blank_rows(inner.rows);
        lemma_nothing_in_nothing(w);
        lemma_adds_a_row(t, u.rows.last());
        assert(u.rows =~= t.plus_row(u.rows.last()).rows);
        assert(adds(t, u, w));
    } else {
        let text = marker.text.push(' ');
        let first = shown(text, marker.style);
        let cont = raw(repeated(' ', columns(text) as int));
        let z = Sheet { at: t.landing(inner), ..t }.plus_rows(prefixed(inner.rows, first, cont));
        lemma_prefixed_is_added(t, z, inner.rows, first, cont, w);
        lemma_adds_and_labels(t, z, t.rows.len() as int, label, w);
    }
    lemma_adds_then(s, t, u, none, w);
    assert(none + w =~= w);
}

/// A list shows the letters of its text.
#[verifier::spinoff_prover]
proof fn lemma_list_is_shown(
    scene: Scene,
    nodes: Seq<NodeView>,
    j: int,
    end: int,
    marks: ListInfo,
    number: usize,
    prev_end: Option<usize>,
    width: usize,
    depth: int,
    s: Sheet,
    base: int,
)
    requires
        0 <= j <= end <= nodes.len(),
        shown_whole(scene),
        well_nested(nodes, j, end, base, depth),
        forall|t: Seq<char>| #[trigger] clusters_in_order(t),
        forall|i: int| j <= i < end && (#[trigger] nodes[i]).depth == base ==> !holds_text(nodes[i].kind),
        j < end ==> nodes[j].depth == base,
    ensures
        adds(
            s,
            list(scene, nodes, j, end, marks, number, prev_end, width, depth, s),
            letters(words(nodes, j, end)),
        ),
    decreases end - j, 2int,
{
    let none = Seq::<char>::empty();
    if j >= end {
        assert(words(nodes, j, end) =~= none);
        lemma_letters_of_blank(none);
        assert(letters(page_text(s.rows)).add(none) =~= letters(page_text(s.rows)));
        lemma_adds_nothing(s, s);
    } else {
        let k = subtree_end(nodes, j, end);
        lemma_nested_apart(nodes, j, end, base, depth);
        lemma_subtree_is_deeper(nodes, nodes[j].depth, j + 1, end, j);
        let t = list_item(scene, nodes, j, k, marks, number, prev_end, width, depth, s);
        lemma_list_item_is_shown(scene, nodes, j, k, marks, number, prev_end, width, depth, s, base);
        let next = if marks.ordered {
            number.saturating_add(1)
        } else {
            number
        };
        let ended = Some(nodes[j].end_line.saturating_sub(1));
        let z = list(scene, nodes, k, end, marks, next, ended, width, depth, t);
        if k < end {
            assert(base <= nodes[k].depth);
        }
        lemma_list_is_shown(scene, nodes, k, end, marks, next, ended, width, depth, t, base);
        let (w1, w2) = (letters(words(nodes, j, k)), letters(words(nodes, k, end)));
        lemma_adds_then(s, t, z, w1, w2);
        lemma_words_split(nodes, j, k, end);
        lemma_letters_concat(words(nodes, j, k), words(nodes, k, end));
    }
}

/// Nothing that is written is lost in the preview: in a document without tables, nested less
/// deep than quotes are shown, every character of its text and of its code that is no white
/// space is shown, in the order in which it is written.
#[verifier::spinoff_prover]
pub proof fn lemma_documents_are_shown(scene: Scene, nodes: Seq<NodeView>, width: usize)
    requires
        nodes.len() > 0,
        shown_whole(scene),
        well_nested(nodes, 1, nodes.len() as int, nodes[0].depth + 1, 0),
        forall|t: Seq<char>| #[trigger] clusters_in_order(t),
    ensures
        within(
            letters(words(nodes, 1, nodes.len() as int)),
            letters(page_text(document(scene, nodes, width))),
        ),
{
    let n = nodes.len() as int;
    let wide = inner_width(width, 0);
    let empty = Sheet { rows: Seq::empty(), at: None };
    lemma_children_are_shown(scene, nodes, 1, n, wide, 0, true, true, empty, nodes[0].depth + 1);
    lemma_page_holds(scene, nodes, width, letters(words(nodes, 1, n)));
}

#[verifier::spinoff_prover]
proof fn lemma_page_holds(scene: Scene, nodes: Seq<NodeView>, width: usize, w: Seq<char>)
    requires
        adds(
            (Sheet { rows: Seq::empty(), at: None }),
            children(
                scene,
                nodes,
                1,
                nodes.len() as int,
                inner_width(width, 0),
                0,
                true,
                true,
                (Sheet { rows: Seq::empty(), at: None }),
            ),
            w,
        ),
    ensures
        within(w, letters(page_text(document(scene, nodes, width)))),
{
    let empty = Sheet { rows: Seq::empty(), at: None };
    let s = children(
        scene,
        nodes,
        1,
        nodes.len() as int,
        inner_width(width, 0),
        0,
        true,
        true,
        empty,
    );
    assert(empty == empty.inside());
    lemma_added_inside(empty, s, w);
    if s.rows.len() == 0 {
        assert(page_text(s.rows) =~= Seq::<char>::empty());
        lemma_letters_of_blank(page_text(s.rows));
        lemma_nothing_in_nothing(w);
        lemma_nothing_within(letters(page_text(document(scene, nodes, width))));
    }
}

proof fn lemma_nothing_in_nothing(w: Seq<char>)
    requires
        within(w, Seq::empty()),
    ensures
        w == Seq::<char>::empty(),
{
    let none = Seq::<char>::empty();
    let places = choose|places: Seq<int>| stand_at(w, none, places);
    if w.len() > 0 {
        assert(0 <= places[0] < none.len());
    }
    assert(w =~= none);
}

// --- the numbers of lists and the columns of tables ---

/// Where the `i`-th of some nodes side by side stands.
pub open spec fn nth_beside(nodes: Seq<NodeView>, j: int, end: int, i: nat) -> int
    decreases i,
{
    if i == 0 {
        j
    } else {
        subtree_end(nodes, nth_beside(nodes, j, end, (i - 1) as nat), end)
    }
}

/// The sheet before the `i`-th item of a list, when each item before it was shown with the
/// number that it counts, from `number` on.
pub open spec fn counted_up(
    scene: Scene,
    nodes: Seq<NodeView>,
    j: int,
    end: int,
    marks: ListInfo,
    number: int,
    width: usize,
    depth: int,
    s: Sheet,
    i: nat,
) -> Sheet
    decreases i,
{
    if i == 0 {
        s
    } else {
        let l = (i - 1) as nat;
        let at = nth_beside(nodes, j, end, l);
        list_item(
            scene,
            nodes,
            at,
            nth_beside(nodes, j, end, i),
            marks,
            (if marks.ordered {
                number + l
            } else {
                number
            }) as usize,
            if l == 0 {
                None
            } else {
                Some(
                    nodes[nth_beside(nodes, j, end, (l - 1) as nat)].end_line.saturating_sub(1),
                )
            },
            width,
            depth,
            counted_up(scene, nodes, j, end, marks, number, width, depth, s, l),
        )
    }
}

/// The items of an ordered list are numbered one by one from its first number on, however
/// they are numbered in the source.
#[verifier::spinoff_prover]
pub proof fn lemma_lists_count_up(
    scene: Scene,
    nodes: Seq<NodeView>,
    j: int,
    end: int,
    marks: ListInfo,
    number: usize,
    width: usize,
    depth: int,
    s: Sheet,
    i: nat,
)
    requires
        j <= end,
        number + i <= usize::MAX,
        i == 0 || nth_beside(nodes, j, end, (i - 1) as nat) < end,
    ensures
        nth_beside(nodes, j, end, i) <= end,
        list(scene, nodes, j, end, marks, number, None, width, depth, s) == list(
            scene,
            nodes,
            nth_beside(nodes, j, end, i),
            end,
            marks,
            (if marks.ordered {
                number + i
            } else {
                number as int
            }) as usize,
            if i == 0 {
                None
            } else {
                Some(
                    nodes[nth_beside(nodes, j, end, (i - 1) as nat)].end_line.saturating_sub(1),
                )
            },
            width,
            depth,
            counted_up(scene, nodes, j, end, marks, number as int, width, depth, s, i),
        ),
    decreases i,
{
    if i > 0 {
        let l = (i - 1) as nat;
        let at = nth_beside(nodes, j, end, l);
        lemma_end_from(nodes, nodes[at].depth, at + 1, end);
        if l > 0 {
            let before = nth_beside(nodes, j, end, (l - 1) as nat);
            if before >= end {
                lemma_end_from_past(nodes, nodes[before].depth, before + 1, end);
            }
        }
        lemma_lists_count_up(scene, nodes, j, end, marks, number, width, depth, s, l);
    }
}

proof fn lemma_end_from_past(nodes: Seq<NodeView>, depth: usize, j: int, end: int)
    requires
        j >= end,
    ensures
        end_from(nodes, depth, j, end) == j,
{
}

/// An item that has text begins with its mark: a number with its delimiter in an ordered
/// list, a box that is filled or not for a task, and else a bullet.
#[verifier::spinoff_prover]
pub proof fn lemma_items_begin_with_their_mark(
    scene: Scene,
    nodes: Seq<NodeView>,
    j: int,
    k: int,
    marks: ListInfo,
    ordinal: usize,
    prev_end: Option<usize>,
    width: usize,
    depth: int,
    s: Sheet,
)
    requires
        j < k,
        shown_whole(scene),
        ({
            let n = nodes[j];
            let t = separated(scene, marks.tight, prev_end, n.start_line.saturating_sub(1), s);
            let marker = marker_of(n.kind, marks, ordinal, '\u{2022}', scene.theme);
            let wide = inner_width(width, columns(marker.text.push(' ')));
            let inner = item_content(scene, nodes, j + 1, k, wide, depth, true, t.inside());
            inner.rows.len() > 0 && !all_blank(inner.rows)
        }),
    ensures
        ({
            let n = nodes[j];
            let t = separated(scene, marks.tight, prev_end, n.start_line.saturating_sub(1), s);
            let u = list_item(scene, nodes, j, k, marks, ordinal, prev_end, width, depth, s);
            let mark = u.rows[t.rows.len() as int].line[0].text;
            &&& u.rows.len() > t.rows.len()
            &&& n.kind == (KindView::TaskItem { checked: true }) ==> mark == seq!['\u{25a0}', ' ']
            &&& n.kind == (KindView::TaskItem { checked: false }) ==> mark == seq!['\u{25a1}', ' ']
            &&& !(n.kind is TaskItem) && !marks.ordered ==> mark == seq!['\u{2022}', ' ']
            &&& !(n.kind is TaskItem) && marks.ordered ==> mark == decimal(ordinal as nat) + (
            if marks.paren {
                seq![')', ' ']
            } else {
                seq!['.', ' ']
            })
        }),
{
    let n = nodes[j];
    let t = separated(scene, marks.tight, prev_end, n.start_line.saturating_sub(1), s);
    let u = list_item(scene, nodes, j, k, marks, ordinal, prev_end, width, depth, s);
    let marker = marker_of(n.kind, marks, ordinal, '\u{2022}', scene.theme);
    let wide = inner_width(width, columns(marker.text.push(' ')));
    let inner = item_content(scene, nodes, j + 1, k, wide, depth, true, t.inside());
    let mark = u.rows[t.rows.len() as int].line[0].text;
    let text = marker.text.push(' ');
    let first = shown(text, marker.style);
    let rows = prefixed(inner.rows, first, raw(repeated(' ', columns(text) as int)));
    assert(rows[0].line[0] == first);
    let z = Sheet { at: t.landing(inner), ..t }.plus_rows(rows);
    assert(z.rows[t.rows.len() as int] == rows[0]);
    assert(mark == text);
    if !(n.kind is TaskItem) && marks.ordered {
        assert(text =~= decimal(ordinal as nat) + (if marks.paren {
            seq![')', ' ']
        } else {
            seq!['.', ' ']
        }));
    } else {
        assert(text =~= seq![marker.text[0], ' ']);
    }
}

/// A cell of a table that fits its column keeps its text, with spaces around it up to the
/// width of the column: behind it, before it in a column aligned to the right, and on both
/// sides, evenly but for one, in a column that is centred.
#[verifier::spinoff_prover]
pub proof fn lemma_cells_are_aligned(
    segs: Seq<SpanView>,
    w: usize,
    align: Alignment,
    extra: Option<Style>,
) -> (pads: (int, int))
    requires
        runs_width(segs) <= w,
    ensures
        0 <= pads.0,
        0 <= pads.1,
        pads.0 + runs_width(segs) + pads.1 == w,
        align == Alignment::Left || align == Alignment::Unset ==> pads.0 == 0,
        align == Alignment::Right ==> pads.1 == 0,
        align == Alignment::Center ==> pads.0 == pads.1 || pads.0 + 1 == pads.1,
        text_of(fitted(segs, w, align, extra)) == repeated(' ', pads.0) + text_of(segs) + repeated(
            ' ',
            pads.1,
        ),
{
    let pad = w - runs_width(segs);
    let l = left_of(pad, align);
    let r = pad - l;
    assert(text_of(spaces(l)) =~= repeated(' ', l)) by {
        if l > 0 {
            lemma_text_of_one(spaces(l)[0]);
            assert(spaces(l) =~= seq![spaces(l)[0]]);
        }
    }
    assert(text_of(spaces(r)) =~= repeated(' ', r)) by {
        if r > 0 {
            lemma_text_of_one(spaces(r)[0]);
            assert(spaces(r) =~= seq![spaces(r)[0]]);
        }
    }
    lemma_cell_runs_text(segs, extra);
    let runs = cell_runs(segs, extra);
    lemma_text_of_concat(spaces(l), runs);
    lemma_text_of_concat(spaces(l) + runs, spaces(r));
    (l, r)
}

proof fn lemma_cell_runs_text(segs: Seq<SpanView>, extra: Option<Style>)
    ensures
        text_of(cell_runs(segs, extra)) == text_of(segs),
    decreases segs.len(),
{
    if segs.len() > 0 {
        lemma_cell_runs_text(segs.drop_last(), extra);
        let less = cell_runs(segs.drop_last(), extra);
        let all = cell_runs(segs, extra);
        if segs.last().text.len() > 0 {
            assert(all.drop_last() =~= less);
        }
        assert(text_of(all) =~= text_of(segs.drop_last()) + segs.last().text);
    }
}

/// In what is shown, too, each of the words stands out in its own style, where it is a word of
/// its own.
#[verifier::spinoff_prover]
pub proof fn lemma_shown_words_stand_out(
    text: Seq<char>,
    at: int,
    word: Seq<char>,
    style: Style,
    theme: MarkdownTheme,
)
    requires
        has_its_style(word, style, theme),
        0 <= at,
        at + word.len() <= text.len(),
        text.subrange(at, at + word.len()) == word,
        at == 0 || !keyword_char(text[at - 1]),
        at + word.len() == text.len() || !keyword_char(
            text[at + word.len()],
        ),
    ensures
        keyword(text, at, theme) == Some((at + word.len(), style)),
{
    reveal_strlit("TODO");
    reveal_strlit("NOTE");
    reveal_strlit("FIXME");
    reveal_strlit("ERROR");
    reveal_strlit("WARN");
    reveal_strlit("WARNING");
    reveal_strlit("HACK");
    reveal_strlit("IMPORTANT");
    lemma_stands(text, word, at);
    if occurs_at(text, "IMPORTANT"@, at) {
        lemma_stands(text, "IMPORTANT"@, at);
    }
    if occurs_at(text, "WARNING"@, at) {
        lemma_stands(text, "WARNING"@, at);
        assert(text[at + 4] == "WARNING"@[4]);
    }
    if occurs_at(text, "FIXME"@, at) {
        lemma_stands(text, "FIXME"@, at);
    }
    if occurs_at(text, "ERROR"@, at) {
        lemma_stands(text, "ERROR"@, at);
    }
    if occurs_at(text, "WARN"@, at) {
        lemma_stands(text, "WARN"@, at);
    }
    if occurs_at(text, "TODO"@, at) {
        lemma_stands(text, "TODO"@, at);
    }
    if occurs_at(text, "NOTE"@, at) {
        lemma_stands(text, "NOTE"@, at);
    }
}

proof fn lemma_stands(text: Seq<char>, word: Seq<char>, at: int)
    requires
        0 <= at,
        word.len() > 0,
        at + word.len() <= text.len(),
        text.subrange(at, at + word.len()) == word,
    ensures
        text[at] == word[0],
        occurs_at(text, word, at),
        forall|i: int| 0 <= i < word.len() ==> text[at + i] == #[trigger] word[i],
{
    assert forall|i: int| 0 <= i < word.len() implies text[at + i] == #[trigger] word[i] by {
        assert(text.subrange(at, at + word.len())[i] == word[i]);
    }
    assert(text[at + 0] == word[0]);
}

/// Every row of a quote begins with its bar, and then shows what is quoted, with plain text in
/// the style of quotes and everything else as it was; what was shown before stays.
pub proof fn lemma_quotes_are_drawn_behind_a_bar(scene: Scene, inner: Sheet, s: Sheet, i: int)
    requires
        0 <= i < inner.rows.len(),
    ensures
        ({
            let q = quote(scene, inner, s);
            let row = q.rows[s.rows.len() + i];
            &&& q.rows.len() == s.rows.len() + inner.rows.len()
            &&& q.rows.take(s.rows.len() as int) == s.rows
            &&& row.source == inner.rows[i].source
            &&& row.line.len() == inner.rows[i].line.len() + 1
            &&& row.line[0] == shown(seq!['\u{2503}', ' '], scene.theme.quote_bar)
            &&& forall|k: int|
                0 <= k < inner.rows[i].line.len() ==> row.line[k + 1].text
                    == (#[trigger] inner.rows[i].line[k]).text && row.line[k + 1].style == if
                inner.rows[i].line[k].style == scene.theme.text {
                    scene.theme.quote
                } else {
                    inner.rows[i].line[k].style
                }
        }),
{
    let q = quote(scene, inner, s);
    assert(q.rows.take(s.rows.len() as int) =~= s.rows);
}

} // verus!
