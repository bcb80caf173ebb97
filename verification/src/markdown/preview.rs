//! Preview renderer: the parsed document → styled lines with markdown markers stripped.
//!
//! Each block is rendered into lines at most `width` columns wide with *no*
//! outer indentation; containers (lists, block quotes) render their children
//! into a fresh buffer and then prefix every produced line. This keeps wrapping
//! correct under arbitrary nesting. Inline text is word-wrapped with awareness
//! of CJK / emoji display width.

use vstd::prelude::*;

use crate::markdown::ast::{
    lemma_end_from, node_end, node_views, parse, parsed, subtree_end, Alignment, KindView, ListInfo,
    Node, NodeKind, NodeView,
};
use crate::markdown::flow::{wrap, wrapped};
use crate::markdown::grid::{fit_segs, fitted, runs_width, segs_width, shrink_to_fit, shrunk};
use crate::markdown::highlight::{CodeHighlighter, CodeLook};
use crate::markdown::theme::MarkdownTheme;
use crate::strings::{
    ascii_alphanumeric, decimal, first_word, from_chars, is_ascii_alphanumeric, leading_word,
    lines_from, matches_at, occurs_at, push_decimal, push_repeated, repeat_char, repeated,
    text_lines, to_chars, trim_bounds, trimmed, views,
};
use crate::style::{
    append_spans, line_views, raw, shown, span_views, Line, Span, SpanView, Style,
};
use crate::text::{columns, width};

verus! {

/// One rendered preview row plus the 1-based source line it begins, when the
/// renderer knows it exactly: lists label every item, tables every grid row
/// (and the header separator with the `|---|` delimiter line). Wrapped
/// continuation rows and pure chrome (table borders) carry `None`.
#[derive(Debug)]
pub struct Row {
    pub line: Line,
    pub source: Option<usize>,
}

/// What a [`Row`] shows.
#[verifier::ext_equal]
pub struct RowView {
    pub line: Seq<SpanView>,
    pub source: Option<usize>,
}

impl View for Row {
    type V = RowView;

    open spec fn view(&self) -> RowView {
        RowView { line: self.line@, source: self.source }
    }
}

/// What rows show.
pub open spec fn row_views(rows: Seq<Row>) -> Seq<RowView> {
    rows.map_values(|r: Row| r@)
}

/// Copy rows to the end of others.
pub fn append_rows(out: &mut Vec<Row>, rows: &Vec<Row>)
    ensures
        row_views(final(out)@) == row_views(old(out)@) + row_views(rows@),
{
    let ghost before = row_views(out@);
    let mut i: usize = 0;
    assert(row_views(out@) =~= before + row_views(rows@).take(0));
    while i < rows.len()
        invariant
            i <= rows@.len(),
            row_views(out@) == before + row_views(rows@).take(i as int),
        decreases rows@.len() - i,
    {
        let ghost prior = row_views(out@);
        let row = Row { line: rows[i].line.copy(), source: rows[i].source };
        let ghost added = row@;
        out.push(row);
        i += 1;
        assert(row_views(out@) =~= prior.push(added));
        assert(row_views(rows@).take(i as int) =~= row_views(rows@).take(i - 1).push(added));
        assert(row_views(out@) =~= before + row_views(rows@).take(i as int));
    }
    assert(row_views(rows@).take(i as int) =~= row_views(rows@));
}

/// Lines as rows without a label (the caller labels what it knows).
pub open spec fn bare(lines: Seq<Seq<SpanView>>) -> Seq<RowView> {
    lines.map_values(|l: Seq<SpanView>| RowView { line: l, source: None })
}

/// Append lines as rows without a label.
fn push_lines(out: &mut Vec<Row>, lines: &Vec<Line>)
    ensures
        row_views(final(out)@) == row_views(old(out)@) + bare(line_views(lines@)),
{
    let ghost before = row_views(out@);
    let ghost all = bare(line_views(lines@));
    let mut i: usize = 0;
    assert(row_views(out@) =~= before + all.take(0));
    while i < lines.len()
        invariant
            i <= lines@.len(),
            all == bare(line_views(lines@)),
            row_views(out@) == before + all.take(i as int),
        decreases lines@.len() - i,
    {
        let ghost prior = row_views(out@);
        let row = Row { line: lines[i].copy(), source: None };
        let ghost added = row@;
        assert(added == all[i as int]);
        out.push(row);
        i += 1;
        assert(row_views(out@) =~= prior.push(added));
        assert(all.take(i as int) =~= all.take(i - 1).push(added));
        assert(row_views(out@) =~= before + all.take(i as int));
    }
    assert(all.take(i as int) =~= all);
}

fn push_row(out: &mut Vec<Row>, row: Row)
    ensures
        row_views(final(out)@) == row_views(old(out)@).push(row@),
{
    let ghost before = row_views(out@);
    out.push(row);
    assert(row_views(out@) =~= before.push(row@));
}

/// The deepest nesting of block quotes that is rendered.
pub const MAX_QUOTE_DEPTH: usize = 64;

/// The block that should render as raw source instead of preview (focus mode's
/// "hole"): its 0-based inclusive line range, the precomputed raw lines to emit
/// in its place, and where those lines landed in the output.
///
/// `start_index` is written during a render and never reset, so an
/// `ActiveLeaf` is single-use: construct a fresh one per render pass.
pub struct ActiveLeaf {
    lines: (usize, usize),
    raw: Vec<Line>,
    start_index: Option<usize>,
}

/// What an [`ActiveLeaf`] asks for.
#[verifier::ext_equal]
pub struct HoleView {
    pub lines: (usize, usize),
    pub raw: Seq<Seq<SpanView>>,
}

impl ActiveLeaf {
    pub closed spec fn hole(&self) -> HoleView {
        HoleView { lines: self.lines, raw: line_views(self.raw@) }
    }

    pub closed spec fn landed(&self) -> Option<usize> {
        self.start_index
    }

    pub fn new(lines: (usize, usize), raw: Vec<Line>) -> (leaf: Self)
        ensures
            leaf.hole() == (HoleView { lines, raw: line_views(raw@) }),
            leaf.landed() is None,
    {
        ActiveLeaf { lines, raw, start_index: None }
    }

    /// Output index where the raw lines were emitted, if reached.
    pub fn start_index(&self) -> (at: Option<usize>)
        ensures
            at == self.landed(),
    {
        self.start_index
    }
}

/// What a rendering depends on besides the document.
pub struct Scene {
    pub theme: MarkdownTheme,
    pub look: CodeLook,
    pub hole: Option<HoleView>,
}

/// The rows rendered so far, and where the raw lines landed.
#[verifier::ext_equal]
pub struct Sheet {
    pub rows: Seq<RowView>,
    pub at: Option<usize>,
}

impl Sheet {
    pub open spec fn plus_row(self, row: RowView) -> Sheet {
        Sheet { rows: self.rows.push(row), at: self.at }
    }

    pub open spec fn plus_rows(self, rows: Seq<RowView>) -> Sheet {
        Sheet { rows: self.rows + rows, at: self.at }
    }

    /// A fresh sheet for the inside of a container.
    pub open spec fn inside(self) -> Sheet {
        Sheet { rows: Seq::empty(), at: None }
    }

    /// Where the raw lines are once the rows of `inner` follow these.
    pub open spec fn landing(self, inner: Sheet) -> Option<usize> {
        match inner.at {
            Some(k) => Some((self.rows.len() as usize).saturating_add(k)),
            None => self.at,
        }
    }

    /// Row `k` labelled with a source line when nothing more precise was recorded.
    pub open spec fn labelled(self, k: int, line: usize) -> Sheet {
        if k < self.rows.len() && self.rows[k].source is None {
            Sheet {
                rows: self.rows.update(k, RowView { source: Some(line), ..self.rows[k] }),
                at: self.at,
            }
        } else {
            self
        }
    }
}

/// The raw lines of the hole in place of a block, if `range` is exactly its line range.
pub open spec fn holed(scene: Scene, range: (usize, usize), s: Sheet) -> Option<Sheet> {
    match scene.hole {
        Some(hole) => if range == hole.lines {
            Some(Sheet { rows: s.rows + bare(hole.raw), at: Some(s.rows.len() as usize) })
        } else {
            None
        },
        None => None,
    }
}

/// The 0-based line range of a node.
pub open spec fn range_of(n: NodeView) -> (usize, usize) {
    (n.start_line.saturating_sub(1), n.end_line.saturating_sub(1))
}

/// The inner width of a container whose prefix takes `used` columns.
pub open spec fn inner_width(width: usize, used: usize) -> usize {
    let w = width.saturating_sub(used);
    if w < 1 {
        1
    } else {
        w
    }
}

fn narrowed(width: usize, used: usize) -> (w: usize)
    ensures
        w == inner_width(width, used),
{
    let w: usize = width.saturating_sub(used);
    if w < 1 {
        1
    } else {
        w
    }
}

// --- keywords ---

/// Whether a character may continue a word.
pub open spec fn keyword_char(c: char) -> bool {
    ascii_alphanumeric(c) || c == '_'
}

/// Whether `word` stands at `at` and ends there.
pub open spec fn word_here(text: Seq<char>, at: int, word: Seq<char>) -> bool {
    occurs_at(text, word, at) && word_ends(text, at + word.len())
}

/// Whether a word may begin at `at`.
pub open spec fn word_begins(text: Seq<char>, at: int) -> bool {
    at <= 0 || at > text.len() || !keyword_char(text[at - 1])
}

/// Whether a word may end before `at`.
pub open spec fn word_ends(text: Seq<char>, at: int) -> bool {
    at >= text.len() || !keyword_char(text[at])
}

/// The keyword at `at`: where it ends, and its style.
pub open spec fn keyword(text: Seq<char>, at: int, theme: MarkdownTheme) -> Option<(int, Style)> {
    if !word_begins(text, at) {
        None
    } else if word_here(text, at, "IMPORTANT"@) {
        Some((at + "IMPORTANT"@.len(), theme.keyword_misc))
    } else if word_here(text, at, "WARNING"@) {
        Some((at + "WARNING"@.len(), theme.keyword_warn))
    } else if word_here(text, at, "FIXME"@) {
        Some((at + "FIXME"@.len(), theme.keyword_error))
    } else if word_here(text, at, "ERROR"@) {
        Some((at + "ERROR"@.len(), theme.keyword_error))
    } else if word_here(text, at, "WARN"@) {
        Some((at + "WARN"@.len(), theme.keyword_warn))
    } else if word_here(text, at, "TODO"@) {
        Some((at + "TODO"@.len(), theme.keyword_note))
    } else if word_here(text, at, "NOTE"@) {
        Some((at + "NOTE"@.len(), theme.keyword_note))
    } else if word_here(text, at, "HACK"@) {
        Some((at + "HACK"@.len(), theme.keyword_misc))
    } else {
        None
    }
}

/// The text from `a` to `b` as a run, where it is not empty.
pub open spec fn run_between(text: Seq<char>, a: int, b: int, style: Style) -> Seq<SpanView> {
    if a < b {
        seq![shown(text.subrange(a, b), style)]
    } else {
        Seq::empty()
    }
}

/// The runs of a text from `i` on, of which the plain part begins at `last`: keywords get
/// styles of their own.
pub open spec fn keyword_runs(
    text: Seq<char>,
    i: int,
    last: int,
    base: Style,
    theme: MarkdownTheme,
) -> Seq<SpanView>
    decreases text.len() - i,
{
    if i >= text.len() {
        run_between(text, last, text.len() as int, base)
    } else {
        match keyword(text, i, theme) {
            Some((end, style)) if i < end <= text.len() => run_between(text, last, i, base)
                + seq![shown(text.subrange(i, end), style)] + keyword_runs(
                text,
                end,
                end,
                base,
                theme,
            ),
            _ => keyword_runs(text, i + 1, last, base, theme),
        }
    }
}

fn is_keyword_char(c: char) -> (yes: bool)
    ensures
        yes == keyword_char(c),
{
    is_ascii_alphanumeric(c) || c == '_'
}

fn is_word_boundary_before(text: &Vec<char>, at: usize) -> (yes: bool)
    requires
        at <= text@.len(),
    ensures
        yes == word_begins(text@, at as int),
{
    at == 0 || !is_keyword_char(text[at - 1])
}

fn is_word_boundary_after(text: &Vec<char>, at: usize) -> (yes: bool)
    ensures
        yes == word_ends(text@, at as int),
{
    at >= text.len() || !is_keyword_char(text[at])
}

fn word_at(text: &Vec<char>, at: usize, word: &str) -> (end: Option<usize>)
    requires
        at < text@.len(),
        word@.len() > 0,
    ensures
        match end {
            Some(e) => word_here(text@, at as int, word@) && e == at + word@.len() && at < e
                <= text@.len(),
            None => !word_here(text@, at as int, word@),
        },
{
    let chars = to_chars(word);
    if matches_at(text, &chars, at) {
        let total: usize = text.len();
        let end: usize = at + chars.len();
        if is_word_boundary_after(text, end) {
            return Some(end);
        }
    }
    None
}

fn keyword_at(text: &Vec<char>, at: usize, theme: &MarkdownTheme) -> (found: Option<
    (usize, Style),
>)
    requires
        at < text@.len(),
    ensures
        match found {
            Some((end, style)) => keyword(text@, at as int, *theme) == Some((end as int, style))
                && at < end <= text@.len(),
            None => keyword(text@, at as int, *theme) is None,
        },
{
    if !is_word_boundary_before(text, at) {
        return None;
    }
    proof {
        reveal_strlit("IMPORTANT");
        reveal_strlit("WARNING");
        reveal_strlit("FIXME");
        reveal_strlit("ERROR");
        reveal_strlit("WARN");
        reveal_strlit("TODO");
        reveal_strlit("NOTE");
        reveal_strlit("HACK");
    }
    if let Some(end) = word_at(text, at, "IMPORTANT") {
        return Some((end, theme.keyword_misc));
    }
    if let Some(end) = word_at(text, at, "WARNING") {
        return Some((end, theme.keyword_warn));
    }
    if let Some(end) = word_at(text, at, "FIXME") {
        return Some((end, theme.keyword_error));
    }
    if let Some(end) = word_at(text, at, "ERROR") {
        return Some((end, theme.keyword_error));
    }
    if let Some(end) = word_at(text, at, "WARN") {
        return Some((end, theme.keyword_warn));
    }
    if let Some(end) = word_at(text, at, "TODO") {
        return Some((end, theme.keyword_note));
    }
    if let Some(end) = word_at(text, at, "NOTE") {
        return Some((end, theme.keyword_note));
    }
    if let Some(end) = word_at(text, at, "HACK") {
        return Some((end, theme.keyword_misc));
    }
    None
}

fn push_span(out: &mut Vec<Span>, text: String, style: Style)
    ensures
        span_views(final(out)@) == span_views(old(out)@) + seq![shown(text@, style)],
{
    let ghost before = span_views(out@);
    out.push(Span { text, style });
    assert(span_views(out@) =~= before + seq![shown(text@, style)]);
}

fn push_keyword_segs(text: &str, base: Style, theme: &MarkdownTheme, out: &mut Vec<Span>)
    ensures
        span_views(final(out)@) == span_views(old(out)@) + keyword_runs(text@, 0, 0, base, *theme),
{
    let chars = to_chars(text);
    let ghost t = text@;
    let ghost goal = span_views(out@) + keyword_runs(t, 0, 0, base, *theme);
    let mut last: usize = 0;
    let mut i: usize = 0;
    while i < chars.len()
        invariant
            last <= i <= chars@.len(),
            chars@ == t,
            span_views(out@) + keyword_runs(t, i as int, last as int, base, *theme) == goal,
        decreases chars@.len() - i,
    {
        match keyword_at(&chars, i, theme) {
            None => {
                i += 1;
            },
            Some((end, style)) => {
                let ghost before = span_views(out@);
                let ghost tail = keyword_runs(t, end as int, end as int, base, *theme);
                let ghost pre = run_between(t, last as int, i as int, base);
                if i > last {
                    push_span(out, from_chars(&chars, last, i), base);
                }
                assert(span_views(out@) =~= before + pre);
                push_span(out, from_chars(&chars, i, end), style);
                let ghost key = seq![shown(t.subrange(i as int, end as int), style)];
                assert(span_views(out@) + tail =~= before + (pre + key + tail));
                last = end;
                i = end;
            },
        }
    }
    let ghost before = span_views(out@);
    let len: usize = chars.len();
    if last < len {
        push_span(out, from_chars(&chars, last, len), base);
    }
    assert(span_views(out@) =~= before + run_between(t, last as int, t.len() as int, base));
}

// --- inline ---

/// The glyph of a task.
pub open spec fn task_glyph(checked: bool) -> char {
    if checked {
        '\u{25a0}'
    } else {
        '\u{25a1}'
    }
}

/// The style of a task's glyph.
pub open spec fn task_style(checked: bool, theme: MarkdownTheme) -> Style {
    if checked {
        theme.task_done
    } else {
        theme.task_todo
    }
}

/// The runs of the inline nodes from `j` to `end`, in a style.
pub open spec fn inline(
    theme: MarkdownTheme,
    nodes: Seq<NodeView>,
    j: int,
    end: int,
    style: Style,
) -> Seq<SpanView>
    decreases end - j,
{
    if j >= end {
        Seq::empty()
    } else {
        let k = subtree_end(nodes, j, end);
        proof {
            lemma_end_from(nodes, nodes[j].depth, j + 1, end);
        }
        let here = match nodes[j].kind {
            KindView::Text(t) => keyword_runs(t, 0, 0, style, theme),
            KindView::Code(t) => seq![shown(t, theme.code_inline)],
            KindView::SoftBreak => seq![
                shown(
                    if theme.hard_breaks {
                        "\n"@
                    } else {
                        " "@
                    },
                    style,
                ),
            ],
            KindView::LineBreak => seq![shown("\n"@, style)],
            KindView::Emph => inline(theme, nodes, j + 1, k, style.with_italic()),
            KindView::Strong => inline(theme, nodes, j + 1, k, style.with_bold()),
            KindView::Strikethrough => inline(theme, nodes, j + 1, k, style.with_crossed_out()),
            KindView::Underline => inline(theme, nodes, j + 1, k, style.with_underlined()),
            KindView::Link => inline(theme, nodes, j + 1, k, theme.link),
            KindView::Image => seq![shown("[img] "@, theme.link)] + inline(
                theme,
                nodes,
                j + 1,
                k,
                theme.link,
            ),
            KindView::TaskItem { checked } => seq![
                shown(seq![task_glyph(checked), ' '], task_style(checked, theme)),
            ],
            KindView::HtmlInline(t) => seq![shown(t, theme.html)],
            KindView::Raw(t) => seq![shown(t, style)],
            KindView::FootnoteReference(name) => seq![
                shown(seq!['['] + name + seq![']'], theme.link),
            ],
            _ => inline(theme, nodes, j + 1, k, style),
        };
        here + inline(theme, nodes, k, end, style)
    }
}

// --- rows of containers ---

/// Rows with the `from` style replaced by `to`, other styles (emphasis, code, links)
/// left intact.
pub open spec fn restyled(rows: Seq<RowView>, from: Style, to: Style) -> Seq<RowView> {
    rows.map_values(
        |r: RowView|
            RowView {
                line: r.line.map_values(
                    |s: SpanView|
                        if s.style == from {
                            shown(s.text, to)
                        } else {
                            s
                        },
                ),
                source: r.source,
            },
    )
}

/// Rows prefixed: the first with `first`, the rest with `cont`.
pub open spec fn prefixed(rows: Seq<RowView>, first: SpanView, cont: SpanView) -> Seq<RowView> {
    Seq::new(
        rows.len(),
        |i: int|
            RowView {
                line: seq![
                    if i == 0 {
                        first
                    } else {
                        cont
                    },
                ] + rows[i].line,
                source: rows[i].source,
            },
    )
}

/// Replace the `from` style with `to` on every span that uses it, leaving other
/// styles (emphasis, code, links) intact. Used to tint plain block-quote text.
fn restyle(rows: &Vec<Row>, from: Style, to: Style) -> (out: Vec<Row>)
    ensures
        row_views(out@) == restyled(row_views(rows@), from, to),
{
    let ghost goal = restyled(row_views(rows@), from, to);
    let mut out: Vec<Row> = Vec::new();
    let mut i: usize = 0;
    while i < rows.len()
        invariant
            i <= rows@.len(),
            goal == restyled(row_views(rows@), from, to),
            out@.len() == i,
            forall|k: int| 0 <= k < i ==> (#[trigger] out@[k])@ == goal[k],
        decreases rows@.len() - i,
    {
        let spans = &rows[i].line.spans;
        let mut fresh: Vec<Span> = Vec::new();
        let mut k: usize = 0;
        while k < spans.len()
            invariant
                k <= spans@.len(),
                fresh@.len() == k,
                forall|m: int|
                    0 <= m < k ==> (#[trigger] fresh@[m])@ == (if spans@[m].style == from {
                        shown(spans@[m].text@, to)
                    } else {
                        spans@[m]@
                    }),
            decreases spans@.len() - k,
        {
            let mut span = spans[k].copy();
            if span.style == from {
                span.style = to;
            }
            fresh.push(span);
            k += 1;
        }
        let row = Row { line: Line { spans: fresh }, source: rows[i].source };
        assert(row@.line =~= goal[i as int].line);
        out.push(row);
        i += 1;
    }
    assert(row_views(out@) =~= goal);
    out
}

/// Prefix each row of `rows`: the first with `first`, the rest with `cont`.
fn prefix_lines(out: &mut Vec<Row>, rows: &Vec<Row>, first: &Span, cont: &Span)
    ensures
        row_views(final(out)@) == row_views(old(out)@) + prefixed(row_views(rows@), first@, cont@),
{
    let ghost goal = prefixed(row_views(rows@), first@, cont@);
    let ghost before = row_views(out@);
    let mut i: usize = 0;
    assert(row_views(out@) =~= before + goal.take(0));
    while i < rows.len()
        invariant
            i <= rows@.len(),
            goal == prefixed(row_views(rows@), first@, cont@),
            row_views(out@) == before + goal.take(i as int),
        decreases rows@.len() - i,
    {
        let mut spans: Vec<Span> = Vec::new();
        let lead = if i == 0 {
            first.copy()
        } else {
            cont.copy()
        };
        let ghost start = lead@;
        spans.push(lead);
        assert(span_views(spans@) =~= seq![start]);
        append_spans(&mut spans, &rows[i].line.spans);
        let row = Row { line: Line { spans }, source: rows[i].source };
        assert(row@.line =~= goal[i as int].line);
        let ghost added = row@;
        push_row(out, row);
        i += 1;
        assert(goal.take(i as int) =~= goal.take(i - 1).push(added));
        assert(row_views(out@) =~= before + goal.take(i as int));
    }
    assert(goal.take(i as int) =~= goal);
}

/// The glyph of a heading.
pub open spec fn glyph_of(level: u8) -> char {
    if level == 1 {
        '\u{25c6}'
    } else if level == 2 {
        '\u{25c8}'
    } else if level == 3 {
        '\u{25c7}'
    } else if level == 4 {
        '\u{25cf}'
    } else if level == 5 {
        '\u{25cb}'
    } else {
        '\u{25e6}'
    }
}

/// Two tiers of descending visual weight, all width-1 and text-only (no
/// emoji-presentation): diamonds for H1-H3 (solid -> pip -> hollow),
/// circles for H4-H6 (solid -> hollow -> small bullet).
fn heading_glyph(level: u8) -> (c: char)
    ensures
        c == glyph_of(level),
{
    match level {
        1 => '\u{25c6}',
        2 => '\u{25c8}',
        3 => '\u{25c7}',
        4 => '\u{25cf}',
        5 => '\u{25cb}',
        _ => '\u{25e6}',
    }
}

/// The runs of a heading: its glyph, where glyphs are shown, then its text.
pub open spec fn heading_runs(
    theme: MarkdownTheme,
    level: u8,
    text: Seq<SpanView>,
) -> Seq<SpanView> {
    if theme.heading_glyphs {
        seq![shown(seq![glyph_of(level), ' '], theme.heading_of(level))] + text
    } else {
        text
    }
}

/// The rows of a code block: each labelled row names its source line.
pub open spec fn code_rows(rows: Seq<RowView>, start: usize) -> Seq<RowView> {
    rows.map_values(
        |r: RowView|
            RowView {
                line: r.line,
                source: match r.source {
                    Some(i) => Some(start.saturating_add(i)),
                    None => None,
                },
            },
    )
}

/// The rows of an HTML block: the literal is the source lines verbatim, so they map 1:1.
pub open spec fn html_rows(lines: Seq<Seq<char>>, start: usize, style: Style) -> Seq<RowView> {
    Seq::new(
        lines.len(),
        |i: int|
            RowView {
                line: seq![shown(lines[i], style)],
                source: Some(start.saturating_add(i as usize)),
            },
    )
}

/// The label of a footnote definition.
pub open spec fn footnote_label(name: Seq<char>) -> Seq<char> {
    seq!['['] + name + seq![']', ':', ' ']
}

/// What stands for the inside of quotes nested too deep.
pub open spec fn too_deep(theme: MarkdownTheme, s: Sheet) -> Sheet {
    s.inside().plus_row(
        RowView { line: seq![shown(seq!['\u{2026}'], theme.quote)], source: None },
    )
}

/// A block quote: its inside, tinted, behind a bar.
pub open spec fn quote(scene: Scene, inner: Sheet, s: Sheet) -> Sheet {
    let theme = scene.theme;
    let bar = shown(seq!['\u{2503}', ' '], theme.quote_bar);
    Sheet {
        rows: s.rows + prefixed(restyled(inner.rows, theme.text, theme.quote), bar, bar),
        at: s.landing(inner),
    }
}

/// A footnote definition: its body behind its label.
pub open spec fn footnote(
    theme: MarkdownTheme,
    name: Seq<char>,
    inner: Sheet,
    s: Sheet,
) -> Sheet {
    let label = footnote_label(name);
    Sheet {
        rows: s.rows + prefixed(
            inner.rows,
            shown(label, theme.list_marker),
            raw(repeated(' ', columns(label) as int)),
        ),
        at: s.landing(inner),
    }
}

// --- lists ---

/// The marker of a list item without the space after it, and its style.
pub open spec fn marker_of(
    kind: KindView,
    marks: ListInfo,
    ordinal: usize,
    plain: char,
    theme: MarkdownTheme,
) -> SpanView {
    match kind {
        KindView::TaskItem { checked } => shown(
            seq![task_glyph(checked)],
            task_style(checked, theme),
        ),
        _ => if marks.ordered {
            shown(
                decimal(ordinal as nat).push(
                    if marks.paren {
                        ')'
                    } else {
                        '.'
                    },
                ),
                theme.list_marker,
            )
        } else {
            shown(seq![plain], theme.list_marker)
        },
    }
}

/// Whether rows show nothing but white space.
pub open spec fn all_blank(rows: Seq<RowView>) -> bool {
    forall|i: int, k: int|
        0 <= i < rows.len() && 0 <= k < rows[i].line.len() ==> trimmed(
            (#[trigger] rows[i].line[k]).text,
        ).len() == 0
}

/// The separator before a list item: nothing before the first and between tight items;
/// else the blank line(s) between loose items, as the hole if it is exactly them.
pub open spec fn separated(
    scene: Scene,
    tight: bool,
    prev_end: Option<usize>,
    item_start: usize,
    s: Sheet,
) -> Sheet {
    match prev_end {
        Some(e) if !tight => {
            let gap = (e.saturating_add(1), item_start.saturating_sub(1));
            if gap.0 > gap.1 {
                s.plus_row(RowView { line: Seq::empty(), source: None })
            } else {
                match holed(scene, gap, s) {
                    Some(t) => t,
                    None => s.plus_row(
                        RowView { line: Seq::empty(), source: Some(gap.0.saturating_add(1)) },
                    ),
                }
            }
        },
        _ => s,
    }
}

/// A list item after its marker: `inner` is its content. An empty item stays visible by
/// its raw marker.
pub open spec fn marked_item(
    theme: MarkdownTheme,
    kind: KindView,
    marks: ListInfo,
    ordinal: usize,
    item_start: usize,
    inner: Sheet,
    s: Sheet,
) -> Sheet {
    let label = item_start.saturating_add(1);
    if all_blank(inner.rows) {
        s.plus_row(
            RowView {
                line: seq![marker_of(kind, marks, ordinal, marks.bullet as char, theme)],
                source: Some(label),
            },
        )
    } else {
        let marker = marker_of(kind, marks, ordinal, '\u{2022}', theme);
        let text = marker.text.push(' ');
        Sheet { at: s.landing(inner), ..s }.plus_rows(
            prefixed(
                inner.rows,
                shown(text, marker.style),
                raw(repeated(' ', columns(text) as int)),
            ),
        ).labelled(s.rows.len() as int, label)
    }
}

// --- tables ---

/// A table row: whether it is the header, its source line, and its cells.
#[verifier::ext_equal]
pub struct GridRow {
    pub header: bool,
    pub line: usize,
    pub cells: Seq<Seq<SpanView>>,
}

/// The cells of a table row, as styled inline runs so per-cell formatting is preserved.
pub open spec fn row_cells(theme: MarkdownTheme, nodes: Seq<NodeView>, j: int, end: int) -> Seq<
    Seq<SpanView>,
>
    decreases end - j,
{
    if j >= end {
        Seq::empty()
    } else {
        let k = subtree_end(nodes, j, end);
        proof {
            lemma_end_from(nodes, nodes[j].depth, j + 1, end);
        }
        seq![inline(theme, nodes, j + 1, k, theme.text)] + row_cells(theme, nodes, k, end)
    }
}

/// The rows of a table.
pub open spec fn grid_rows(theme: MarkdownTheme, nodes: Seq<NodeView>, j: int, end: int) -> Seq<
    GridRow,
>
    decreases end - j,
{
    if j >= end {
        Seq::empty()
    } else {
        let k = subtree_end(nodes, j, end);
        proof {
            lemma_end_from(nodes, nodes[j].depth, j + 1, end);
        }
        seq![
            GridRow {
                header: match nodes[j].kind {
                    KindView::TableRow { header } => header,
                    _ => false,
                },
                line: nodes[j].start_line,
                cells: row_cells(theme, nodes, j + 1, k),
            },
        ] + grid_rows(theme, nodes, k, end)
    }
}

/// The most cells that one of the first `n` rows has, at least `least`.
pub open spec fn most_cells(rows: Seq<GridRow>, n: int, least: int) -> int
    decreases n,
{
    if n <= 0 {
        least
    } else {
        let m = most_cells(rows, n - 1, least);
        if rows[n - 1].cells.len() > m {
            rows[n - 1].cells.len() as int
        } else {
            m
        }
    }
}

/// The natural width of column `c` in the first `n` rows.
pub open spec fn natural_width(rows: Seq<GridRow>, n: int, c: int) -> usize
    decreases n,
{
    if n <= 0 {
        0
    } else {
        let w = natural_width(rows, n - 1, c);
        if c < rows[n - 1].cells.len() && runs_width(rows[n - 1].cells[c]) > w {
            runs_width(rows[n - 1].cells[c])
        } else {
            w
        }
    }
}

/// The natural widths of the columns.
pub open spec fn natural_widths(rows: Seq<GridRow>, count: int) -> Seq<usize> {
    Seq::new(count as nat, |c: int| natural_width(rows, rows.len() as int, c))
}

/// What the columns may take of the width: all but the borders and one space of padding
/// on each side, and a column each at least.
pub open spec fn grid_budget(width: usize, count: usize) -> usize {
    let chrome = count.saturating_add(1).saturating_add(count).saturating_add(count);
    let room = width.saturating_sub(chrome);
    if room < count {
        count
    } else {
        room
    }
}

/// The dashes of a horizontal border over the first `n` columns, with `mid` between them.
pub open spec fn dashes(ws: Seq<usize>, n: int, mid: char) -> Seq<char>
    decreases n,
{
    if n <= 0 {
        Seq::empty()
    } else {
        dashes(ws, n - 1, mid) + (if n > 1 {
            seq![mid]
        } else {
            Seq::empty()
        }) + repeated('\u{2500}', ws[n - 1].saturating_add(2) as int)
    }
}

/// A horizontal border.
pub open spec fn border_line(
    ws: Seq<usize>,
    left: char,
    mid: char,
    right: char,
    style: Style,
) -> Seq<SpanView> {
    seq![shown(seq![left] + dashes(ws, ws.len() as int, mid) + seq![right], style)]
}

/// The first `n` cells of a grid row, each after its left border.
pub open spec fn grid_cells(
    row: GridRow,
    ws: Seq<usize>,
    n: int,
    alignments: Seq<Alignment>,
    theme: MarkdownTheme,
) -> Seq<SpanView>
    decreases n,
{
    let bar = shown(seq!['\u{2502}'], theme.table_border);
    if n <= 0 {
        seq![bar]
    } else {
        let c = n - 1;
        let cell = if c < row.cells.len() {
            row.cells[c]
        } else {
            Seq::empty()
        };
        let align = if c < alignments.len() {
            alignments[c]
        } else {
            Alignment::Unset
        };
        let extra = if row.header {
            Some(theme.table_header)
        } else {
            None
        };
        grid_cells(row, ws, c, alignments, theme) + (seq![raw(seq![' '])] + fitted(
            cell,
            ws[c],
            align,
            extra,
        ) + seq![raw(seq![' ']), bar])
    }
}

/// The grid rows of the first `n` table rows, with the separator below the header.
pub open spec fn grid_body(
    rows: Seq<GridRow>,
    n: int,
    ws: Seq<usize>,
    alignments: Seq<Alignment>,
    theme: MarkdownTheme,
) -> Seq<RowView>
    decreases n,
{
    if n <= 0 {
        Seq::empty()
    } else {
        let row = rows[n - 1];
        let so_far = grid_body(rows, n - 1, ws, alignments, theme).push(
            RowView {
                line: grid_cells(row, ws, ws.len() as int, alignments, theme),
                source: Some(row.line),
            },
        );
        if row.header && n == 1 {
            so_far.push(
                RowView {
                    line: border_line(ws, '\u{251c}', '\u{253c}', '\u{2524}', theme.table_border),
                    source: Some(row.line.saturating_add(1)),
                },
            )
        } else {
            so_far
        }
    }
}

/// A table as a grid at most `width` columns wide.
pub open spec fn grid(
    rows: Seq<GridRow>,
    alignments: Seq<Alignment>,
    width: usize,
    theme: MarkdownTheme,
) -> Seq<RowView> {
    let count = most_cells(rows, rows.len() as int, alignments.len() as int);
    let ws = shrunk(natural_widths(rows, count), grid_budget(width, count as usize) as int);
    if count == 0 {
        Seq::empty()
    } else {
        seq![
            RowView {
                line: border_line(ws, '\u{256d}', '\u{252c}', '\u{256e}', theme.table_border),
                source: None,
            },
        ] + grid_body(rows, rows.len() as int, ws, alignments, theme) + seq![
            RowView {
                line: border_line(ws, '\u{2570}', '\u{2534}', '\u{256f}', theme.table_border),
                source: None,
            },
        ]
    }
}

// --- blocks ---

/// The sheet after a block: the node at `i`, whose subtree ends at `end`.
pub open spec fn block(
    scene: Scene,
    nodes: Seq<NodeView>,
    i: int,
    end: int,
    width: usize,
    depth: int,
    s: Sheet,
) -> Sheet
    decreases end - i, 0int,
{
    if i >= end {
        s
    } else {
        let n = nodes[i];
        let theme = scene.theme;
        match holed(scene, range_of(n), s) {
            Some(t) => t,
            None => {
                let t = match n.kind {
                    KindView::Heading(level) => s.plus_rows(
                        bare(
                            wrapped(
                                heading_runs(
                                    theme,
                                    level,
                                    inline(theme, nodes, i + 1, end, theme.heading_of(level)),
                                ),
                                width,
                                true,
                            ),
                        ),
                    ),
                    KindView::Paragraph => s.plus_rows(
                        bare(wrapped(inline(theme, nodes, i + 1, end, theme.text), width, true)),
                    ),
                    KindView::List { marks, start } => list(
                        scene,
                        nodes,
                        i + 1,
                        end,
                        marks,
                        start,
                        None,
                        width,
                        depth,
                        s,
                    ),
                    KindView::Quote => {
                        let inner = if depth < MAX_QUOTE_DEPTH {
                            children(
                                scene,
                                nodes,
                                i + 1,
                                end,
                                inner_width(width, 2),
                                depth + 1,
                                true,
                                true,
                                s.inside(),
                            )
                        } else {
                            too_deep(theme, s)
                        };
                        quote(scene, inner, s)
                    },
                    KindView::CodeBlock { fenced, info, literal } => s.plus_rows(
                        code_rows(
                            scene.look.rows(first_word(info), literal, width),
                            n.start_line.saturating_add(
                                if fenced {
                                    1
                                } else {
                                    0
                                },
                            ),
                        ),
                    ),
                    KindView::ThematicBreak => s.plus_row(
                        RowView {
                            line: seq![shown(repeated('\u{2501}', width as int), theme.rule)],
                            source: None,
                        },
                    ),
                    KindView::Table(alignments) => s.plus_rows(
                        grid(grid_rows(theme, nodes, i + 1, end), alignments, width, theme),
                    ),
                    KindView::HtmlBlock(literal) => s.plus_rows(
                        html_rows(lines_from(literal, 0), n.start_line, theme.html),
                    ),
                    KindView::FootnoteDefinition(name) => {
                        let label = footnote_label(name);
                        let inner = children(
                            scene,
                            nodes,
                            i + 1,
                            end,
                            inner_width(width, columns(label)),
                            depth,
                            false,
                            true,
                            s.inside(),
                        );
                        footnote(theme, name, inner, s)
                    },
                    _ => children(scene, nodes, i + 1, end, width, depth, false, true, s),
                };
                if n.kind is Table {
                    t
                } else {
                    t.labelled(s.rows.len() as int, n.start_line)
                }
            },
        }
    }
}

/// The sheet after the blocks from `j` to `end`, separated by blank rows when `loose`.
pub open spec fn children(
    scene: Scene,
    nodes: Seq<NodeView>,
    j: int,
    end: int,
    width: usize,
    depth: int,
    loose: bool,
    first: bool,
    s: Sheet,
) -> Sheet
    decreases end - j, 1int,
{
    if j >= end {
        s
    } else {
        let k = subtree_end(nodes, j, end);
        proof {
            lemma_end_from(nodes, nodes[j].depth, j + 1, end);
        }
        let t = if !first && loose {
            s.plus_row(RowView { line: Seq::empty(), source: None })
        } else {
            s
        };
        children(
            scene,
            nodes,
            k,
            end,
            width,
            depth,
            loose,
            false,
            block(scene, nodes, j, k, width, depth, t),
        )
    }
}

/// The content of a list item: the first paragraph inline (so it sits on
/// the marker line); everything else as nested blocks.
pub open spec fn item_content(
    scene: Scene,
    nodes: Seq<NodeView>,
    j: int,
    end: int,
    width: usize,
    depth: int,
    first: bool,
    s: Sheet,
) -> Sheet
    decreases end - j, 1int,
{
    if j >= end {
        s
    } else {
        let k = subtree_end(nodes, j, end);
        proof {
            lemma_end_from(nodes, nodes[j].depth, j + 1, end);
        }
        let t = if first && nodes[j].kind is Paragraph {
            s.plus_rows(
                bare(
                    wrapped(
                        inline(scene.theme, nodes, j + 1, k, scene.theme.text),
                        width,
                        true,
                    ),
                ),
            )
        } else {
            block(scene, nodes, j, k, width, depth, s)
        };
        item_content(scene, nodes, k, end, width, depth, false, t)
    }
}

/// The sheet after the list item at `j`, whose subtree ends at `k`.
pub open spec fn list_item(
    scene: Scene,
    nodes: Seq<NodeView>,
    j: int,
    k: int,
    marks: ListInfo,
    ordinal: usize,
    prev_end: Option<usize>,
    width: usize,
    depth: int,
    s: Sheet,
) -> Sheet
    decreases k - j, 1int,
{
    let n = nodes[j];
    let item_start = n.start_line.saturating_sub(1);
    let t = separated(scene, marks.tight, prev_end, item_start, s);
    match holed(scene, range_of(n), t) {
        Some(u) => u,
        None => {
            let marker = marker_of(n.kind, marks, ordinal, '\u{2022}', scene.theme);
            let inner = if j < k {
                item_content(
                    scene,
                    nodes,
                    j + 1,
                    k,
                    inner_width(width, columns(marker.text.push(' '))),
                    depth,
                    true,
                    t.inside(),
                )
            } else {
                t.inside()
            };
            marked_item(scene.theme, n.kind, marks, ordinal, item_start, inner, t)
        },
    }
}

/// The sheet after the list items from `j` to `end`.
pub open spec fn list(
    scene: Scene,
    nodes: Seq<NodeView>,
    j: int,
    end: int,
    marks: ListInfo,
    number: usize,
    prev_end: Option<usize>,
    width: usize,
    depth: int,
    s: Sheet,
) -> Sheet
    decreases end - j, 2int,
{
    if j >= end {
        s
    } else {
        let k = subtree_end(nodes, j, end);
        proof {
            lemma_end_from(nodes, nodes[j].depth, j + 1, end);
        }
        list(
            scene,
            nodes,
            k,
            end,
            marks,
            if marks.ordered {
                number.saturating_add(1)
            } else {
                number
            },
            Some(nodes[j].end_line.saturating_sub(1)),
            width,
            depth,
            list_item(scene, nodes, j, k, marks, number, prev_end, width, depth, s),
        )
    }
}

/// A document rendered whole: its blocks separated by blank rows, and one empty row where
/// there are none.
pub open spec fn document(scene: Scene, nodes: Seq<NodeView>, width: usize) -> Seq<RowView> {
    let s = children(
        scene,
        nodes,
        1,
        nodes.len() as int,
        inner_width(width, 0),
        0,
        true,
        true,
        Sheet { rows: Seq::empty(), at: None },
    );
    if s.rows.len() == 0 {
        seq![RowView { line: Seq::empty(), source: None }]
    } else {
        s.rows
    }
}

/// Rows being rendered, and where the raw lines of the hole landed in them.
struct Canvas {
    rows: Vec<Row>,
    at: Option<usize>,
}

impl View for Canvas {
    type V = Sheet;

    closed spec fn view(&self) -> Sheet {
        Sheet { rows: row_views(self.rows@), at: self.at }
    }
}

impl Canvas {
    fn push(&mut self, row: Row)
        ensures
            final(self)@ == old(self)@.plus_row(row@),
    {
        push_row(&mut self.rows, row);
    }

    fn push_lines(&mut self, lines: &Vec<Line>)
        ensures
            final(self)@ == old(self)@.plus_rows(bare(line_views(lines@))),
    {
        push_lines(&mut self.rows, lines);
    }

    /// A fresh canvas for the inside of a container.
    fn inside(&self) -> (c: Canvas)
        ensures
            c@ == self@.inside(),
    {
        let c = Canvas { rows: Vec::new(), at: None };
        assert(c@.rows =~= Seq::empty());
        c
    }

    /// Where the raw lines are once the rows of `inner` follow these.
    fn landing(&self, inner: &Canvas) -> (at: Option<usize>)
        ensures
            at == self@.landing(inner@),
    {
        match inner.at {
            Some(k) => Some(self.rows.len().saturating_add(k)),
            None => self.at,
        }
    }

    /// Label row `k` when nothing more precise was recorded.
    fn label(&mut self, k: usize, line: usize)
        ensures
            final(self)@ == old(self)@.labelled(k as int, line),
    {
        let ghost before = self@;
        if k < self.rows.len() {
            assert(before.rows[k as int] == self.rows@[k as int]@);
            if self.rows[k].source.is_none() {
                let row = Row { line: self.rows[k].line.copy(), source: Some(line) };
                let ghost added = row@;
                self.rows.set(k, row);
                assert(self@.rows =~= before.rows.update(k as int, added));
            }
        }
    }
}

struct Renderer<'r> {
    theme: &'r MarkdownTheme,
    active: Option<&'r ActiveLeaf>,
}

fn text_with_space(c: char) -> (s: String)
    ensures
        s@ == seq![c, ' '],
{
    let mut s = String::new();
    s.push(c);
    s.push(' ');
    assert(s@ =~= seq![c, ' ']);
    s
}

fn text_of_char(c: char) -> (s: String)
    ensures
        s@ == seq![c],
{
    let mut s = String::new();
    s.push(c);
    assert(s@ =~= seq![c]);
    s
}

impl<'r> Renderer<'r> {
    spec fn scene(&self, look: CodeLook) -> Scene {
        Scene {
            theme: *self.theme,
            look,
            hole: match self.active {
                Some(a) => Some(a.hole()),
                None => None,
            },
        }
    }

    /// Emit the active leaf's raw lines in place if `range` is exactly its line
    /// range (used for the active node, or for a blank run between list items).
    /// The rows stay unlabeled: the hybrid view overwrites the hole with exact
    /// per-row numbers from the full layout.
    fn try_emit_raw_range(&self, range: (usize, usize), out: &mut Canvas, look: Ghost<CodeLook>)
        -> (done: bool)
        ensures
            match holed(self.scene(look@), range, old(out)@) {
                Some(t) => done && final(out)@ == t,
                None => !done && final(out)@ == old(out)@,
            },
    {
        match self.active {
            Some(active) => {
                if range.0 == active.lines.0 && range.1 == active.lines.1 {
                    assert(range == active.lines);
                    let at: usize = out.rows.len();
                    out.push_lines(&active.raw);
                    out.at = Some(at);
                    true
                } else {
                    false
                }
            },
            None => false,
        }
    }

    /// If node `i` is the focus-mode active leaf, emit its raw lines in place and
    /// return true (so the caller skips its normal preview rendering).
    fn try_emit_raw(&self, nodes: &Vec<Node>, i: usize, out: &mut Canvas, look: Ghost<CodeLook>)
        -> (done: bool)
        requires
            i < nodes@.len(),
        ensures
            match holed(self.scene(look@), range_of(nodes@[i as int]@), old(out)@) {
                Some(t) => done && final(out)@ == t,
                None => !done && final(out)@ == old(out)@,
            },
    {
        let range = (nodes[i].start_line.saturating_sub(1), nodes[i].end_line.saturating_sub(1));
        self.try_emit_raw_range(range, out, look)
    }

    fn inline_segs(&self, nodes: &Vec<Node>, j: usize, end: usize, base: Style) -> (out: Vec<Span>)
        requires
            j <= end <= nodes@.len(),
        ensures
            span_views(out@) == inline(
                *self.theme,
                node_views(nodes@),
                j as int,
                end as int,
                base,
            ),
    {
        let mut out: Vec<Span> = Vec::new();
        self.walk_inline(nodes, j, end, base, &mut out);
        assert(span_views(out@) =~= inline(
            *self.theme,
            node_views(nodes@),
            j as int,
            end as int,
            base,
        ));
        out
    }

    fn walk_inline(
        &self,
        nodes: &Vec<Node>,
        start: usize,
        end: usize,
        style: Style,
        out: &mut Vec<Span>,
    )
        requires
            start <= end <= nodes@.len(),
        ensures
            span_views(final(out)@) == span_views(old(out)@) + inline(
                *self.theme,
                node_views(nodes@),
                start as int,
                end as int,
                style,
            ),
        decreases end - start,
    {
        let ghost v = node_views(nodes@);
        let ghost theme = *self.theme;
        let ghost goal = span_views(out@) + inline(theme, v, start as int, end as int, style);
        let mut j: usize = start;
        while j < end
            invariant
                start <= j <= end <= nodes@.len(),
                v == node_views(nodes@),
                theme == *self.theme,
                span_views(out@) + inline(theme, v, j as int, end as int, style) == goal,
            decreases end - j,
        {
            let ghost before = span_views(out@);
            let k: usize = node_end(nodes, j, end);
            let ghost tail = inline(theme, v, k as int, end as int, style);
            assert(v[j as int] == nodes@[j as int]@);
            match &nodes[j].kind {
                NodeKind::Text(t) => push_keyword_segs(t.as_str(), style, self.theme, out),
                NodeKind::Code(t) => push_span(out, t.clone(), self.theme.code_inline),
                // A single source newline renders as a space (markdown reflow),
                // or as a visible line break when `hard_breaks` is enabled.
                NodeKind::SoftBreak => push_span(
                    out,
                    (if self.theme.hard_breaks {
                        "\n"
                    } else {
                        " "
                    }).to_owned(),
                    style,
                ),
                NodeKind::LineBreak => push_span(out, "\n".to_owned(), style),
                NodeKind::Emph => self.walk_inline(nodes, j + 1, k, style.italic(), out),
                NodeKind::Strong => self.walk_inline(nodes, j + 1, k, style.bold(), out),
                NodeKind::Strikethrough => self.walk_inline(
                    nodes,
                    j + 1,
                    k,
                    style.crossed_out(),
                    out,
                ),
                NodeKind::Underline => self.walk_inline(nodes, j + 1, k, style.underlined(), out),
                NodeKind::Link => self.walk_inline(nodes, j + 1, k, self.theme.link, out),
                NodeKind::Image => {
                    // ASCII marker: picture glyphs (e.g. U+1F5BC) have
                    // ambiguous terminal width and break table alignment.
                    push_span(out, "[img] ".to_owned(), self.theme.link);
                    self.walk_inline(nodes, j + 1, k, self.theme.link, out);
                    assert(span_views(out@) =~= before + (seq![shown("[img] "@, theme.link)]
                        + inline(theme, v, j + 1, k as int, theme.link)));
                },
                NodeKind::TaskItem { checked } => push_span(
                    out,
                    text_with_space(
                        if *checked {
                            '\u{25a0}'
                        } else {
                            '\u{25a1}'
                        },
                    ),
                    if *checked {
                        self.theme.task_done
                    } else {
                        self.theme.task_todo
                    },
                ),
                NodeKind::HtmlInline(t) => push_span(out, t.clone(), self.theme.html),
                NodeKind::Raw(t) => push_span(out, t.clone(), style),
                // Use the source label, not the numeric index, so the
                // reference visibly matches its `[name]:` definition.
                NodeKind::FootnoteReference(name) => {
                    let mut text = String::new();
                    text.push('[');
                    text.append(name.as_str());
                    text.push(']');
                    assert(text@ =~= seq!['['] + name@ + seq![']']);
                    push_span(out, text, self.theme.link);
                },
                _ => self.walk_inline(nodes, j + 1, k, style, out),
            }
            proof {
                let here = inline(theme, v, j as int, end as int, style);
                assert(span_views(out@) + tail =~= before + here);
            }
            j = k;
        }
        assert(span_views(out@) + inline(theme, v, j as int, end as int, style) =~= span_views(
            out@,
        ));
    }

    /// Render every block from `start` to `end`, separated by a blank line when
    /// `loose`.
    fn render_block_children(
        &self,
        nodes: &Vec<Node>,
        start: usize,
        end: usize,
        width: usize,
        depth: usize,
        loose: bool,
        hl: &mut CodeHighlighter,
        out: &mut Canvas,
    )
        requires
            start <= end <= nodes@.len(),
            depth <= MAX_QUOTE_DEPTH,
            old(hl).wf(),
        ensures
            final(hl).wf(),
            final(hl).look() == old(hl).look(),
            final(out)@ == children(
                self.scene(old(hl).look()),
                node_views(nodes@),
                start as int,
                end as int,
                width,
                depth as int,
                loose,
                true,
                old(out)@,
            ),
        decreases end - start, 2int,
    {
        let ghost v = node_views(nodes@);
        let ghost look = hl.look();
        let ghost sc = self.scene(look);
        let ghost goal = children(
            sc,
            v,
            start as int,
            end as int,
            width,
            depth as int,
            loose,
            true,
            out@,
        );
        let mut first = true;
        let mut j: usize = start;
        while j < end
            invariant
                start <= j <= end <= nodes@.len(),
                depth <= MAX_QUOTE_DEPTH,
                v == node_views(nodes@),
                hl.wf(),
                hl.look() == look,
                sc == self.scene(look),
                children(
                    sc,
                    v,
                    j as int,
                    end as int,
                    width,
                    depth as int,
                    loose,
                    first,
                    out@,
                ) == goal,
            decreases end - j,
        {
            let k: usize = node_end(nodes, j, end);
            if !first && loose {
                out.push(Row { line: Line::empty(), source: None });
            }
            first = false;
            self.render_block(nodes, j, k, width, depth, hl, out);
            j = k;
        }
    }

    /// Render the block at `i`, whose subtree ends at `end`.
    fn render_block(
        &self,
        nodes: &Vec<Node>,
        i: usize,
        end: usize,
        width: usize,
        depth: usize,
        hl: &mut CodeHighlighter,
        out: &mut Canvas,
    )
        requires
            i < end <= nodes@.len(),
            depth <= MAX_QUOTE_DEPTH,
            old(hl).wf(),
        ensures
            final(hl).wf(),
            final(hl).look() == old(hl).look(),
            final(out)@ == block(
                self.scene(old(hl).look()),
                node_views(nodes@),
                i as int,
                end as int,
                width,
                depth as int,
                old(out)@,
            ),
        decreases end - i, 1int,
    {
        let ghost v = node_views(nodes@);
        let ghost look = hl.look();
        let ghost sc = self.scene(look);
        let ghost s = out@;
        assert(v[i as int] == nodes@[i as int]@);
        if self.try_emit_raw(nodes, i, out, Ghost(look)) {
            return;
        }
        let first: usize = out.rows.len();
        assert(first == s.rows.len());
        let mut is_table = false;
        match &nodes[i].kind {
            NodeKind::Heading(level) => self.render_heading(nodes, i, end, *level, width, out),
            NodeKind::Paragraph => {
                let segs = self.inline_segs(nodes, i + 1, end, self.theme.text);
                out.push_lines(&wrap(&segs, width, true));
            },
            NodeKind::List { marks, start } => self.render_list(
                nodes,
                i + 1,
                end,
                *marks,
                *start,
                width,
                depth,
                hl,
                out,
            ),
            NodeKind::Quote => {
                self.render_quote(nodes, i, end, width, depth, hl, out);
            },
            NodeKind::CodeBlock { fenced, info, literal } => {
                let lang = leading_word(info.as_str());
                // Literal lines map 1:1 to source lines (a fenced block's
                // literal starts after the opening fence); the highlighter says
                // which rows begin one, and hard-wrapped continuations stay
                // unlabeled.
                let start: usize = nodes[i].start_line.saturating_add(
                    if *fenced {
                        1
                    } else {
                        0
                    },
                );
                let rows = hl.highlight(lang.as_str(), literal.as_str(), width);
                push_code_rows(&mut out.rows, &rows, start);
            },
            NodeKind::ThematicBreak => {
                let rule = Span::styled(repeat_char('\u{2501}', width), self.theme.rule);
                out.push(Row { line: Line::of(rule), source: None });
            },
            NodeKind::Table(alignments) => {
                is_table = true;
                self.render_table(nodes, i + 1, end, alignments, width, out);
            },
            NodeKind::HtmlBlock(literal) => {
                let lines = text_lines(literal.as_str());
                push_html_rows(&mut out.rows, &lines, nodes[i].start_line, self.theme.html);
            },
            NodeKind::FootnoteDefinition(name) => {
                self.render_footnote(nodes, i, end, name, width, depth, hl, out);
            },
            // Containers we render through (items handled by render_list).
            _ => self.render_block_children(nodes, i + 1, end, width, depth, false, hl, out),
        }
        // Label the block's first rendered row with its starting source line
        // when nothing more precise was recorded. A table is exempt: its first
        // row is the top border, which deliberately stays unlabeled.
        if !is_table {
            out.label(first, nodes[i].start_line);
        }
    }

    /// Render the inside of a block quote behind its bar.
    fn render_quote(
        &self,
        nodes: &Vec<Node>,
        i: usize,
        end: usize,
        width: usize,
        depth: usize,
        hl: &mut CodeHighlighter,
        out: &mut Canvas,
    )
        requires
            i < end <= nodes@.len(),
            depth <= MAX_QUOTE_DEPTH,
            old(hl).wf(),
        ensures
            final(hl).wf(),
            final(hl).look() == old(hl).look(),
            final(out)@ == quote(
                self.scene(old(hl).look()),
                if depth < MAX_QUOTE_DEPTH {
                    children(
                        self.scene(old(hl).look()),
                        node_views(nodes@),
                        i + 1,
                        end as int,
                        inner_width(width, 2),
                        depth + 1,
                        true,
                        true,
                        old(out)@.inside(),
                    )
                } else {
                    too_deep(*self.theme, old(out)@)
                },
                old(out)@,
            ),
        decreases end - i, 0int,
    {
        let inner_w: usize = narrowed(width, 2);
        let mut inner = out.inside();
        if depth < MAX_QUOTE_DEPTH {
            self.render_block_children(
                nodes,
                i + 1,
                end,
                inner_w,
                depth + 1,
                true,
                hl,
                &mut inner,
            );
        } else {
            let ellipsis = Span::styled(text_of_char('\u{2026}'), self.theme.quote);
            inner.push(Row { line: Line::of(ellipsis), source: None });
        }
        let bar = Span::styled(text_with_space('\u{2503}'), self.theme.quote_bar);
        let tinted = restyle(&inner.rows, self.theme.text, self.theme.quote);
        out.at = out.landing(&inner);
        prefix_lines(&mut out.rows, &tinted, &bar, &bar);
    }

    /// Render a footnote definition's body behind a "[name]: " label, mirroring
    /// the list-marker layout so wrapped lines stay aligned.
    fn render_footnote(
        &self,
        nodes: &Vec<Node>,
        i: usize,
        end: usize,
        name: &String,
        width: usize,
        depth: usize,
        hl: &mut CodeHighlighter,
        out: &mut Canvas,
    )
        requires
            i < end <= nodes@.len(),
            depth <= MAX_QUOTE_DEPTH,
            old(hl).wf(),
        ensures
            final(hl).wf(),
            final(hl).look() == old(hl).look(),
            final(out)@ == footnote(
                *self.theme,
                name@,
                children(
                    self.scene(old(hl).look()),
                    node_views(nodes@),
                    i + 1,
                    end as int,
                    inner_width(width, columns(footnote_label(name@))),
                    depth as int,
                    false,
                    true,
                    old(out)@.inside(),
                ),
                old(out)@,
            ),
        decreases end - i, 0int,
    {
        let mut label = String::new();
        label.push('[');
        label.append(name.as_str());
        label.push(']');
        label.push(':');
        label.push(' ');
        assert(label@ =~= footnote_label(name@));
        let marker_w: usize = crate::text::width(label.as_str());
        let inner_w: usize = narrowed(width, marker_w);
        let mut inner = out.inside();
        self.render_block_children(nodes, i + 1, end, inner_w, depth, false, hl, &mut inner);
        let lead = Span::styled(label, self.theme.list_marker);
        let cont = Span::raw(repeat_char(' ', marker_w));
        out.at = out.landing(&inner);
        prefix_lines(&mut out.rows, &inner.rows, &lead, &cont);
    }

    fn render_heading(
        &self,
        nodes: &Vec<Node>,
        i: usize,
        end: usize,
        level: u8,
        width: usize,
        out: &mut Canvas,
    )
        requires
            i < end <= nodes@.len(),
        ensures
            final(out)@ == old(out)@.plus_rows(
                bare(
                    wrapped(
                        heading_runs(
                            *self.theme,
                            level,
                            inline(
                                *self.theme,
                                node_views(nodes@),
                                i + 1,
                                end as int,
                                self.theme.heading_of(level),
                            ),
                        ),
                        width,
                        true,
                    ),
                ),
            ),
    {
        let style = self.theme.heading(level);
        let mut segs: Vec<Span> = Vec::new();
        if self.theme.heading_glyphs {
            segs.push(Span::styled(text_with_space(heading_glyph(level)), style));
        }
        let ghost lead = span_views(segs@);
        self.walk_inline(nodes, i + 1, end, style, &mut segs);
        assert(span_views(segs@) =~= heading_runs(
            *self.theme,
            level,
            inline(*self.theme, node_views(nodes@), i + 1, end as int, style),
        ));
        out.push_lines(&wrap(&segs, width, true));
    }

    fn render_list(
        &self,
        nodes: &Vec<Node>,
        start: usize,
        end: usize,
        marks: ListInfo,
        begin: usize,
        width: usize,
        depth: usize,
        hl: &mut CodeHighlighter,
        out: &mut Canvas,
    )
        requires
            start <= end <= nodes@.len(),
            depth <= MAX_QUOTE_DEPTH,
            old(hl).wf(),
        ensures
            final(hl).wf(),
            final(hl).look() == old(hl).look(),
            final(out)@ == list(
                self.scene(old(hl).look()),
                node_views(nodes@),
                start as int,
                end as int,
                marks,
                begin,
                None,
                width,
                depth as int,
                old(out)@,
            ),
        decreases end - start, 3int,
    {
        let ghost v = node_views(nodes@);
        let ghost look = hl.look();
        let ghost sc = self.scene(look);
        let ghost goal = list(
            sc,
            v,
            start as int,
            end as int,
            marks,
            begin,
            None,
            width,
            depth as int,
            out@,
        );
        let mut number: usize = begin;
        let mut prev_end: Option<usize> = None;
        let mut j: usize = start;
        while j < end
            invariant
                start <= j <= end <= nodes@.len(),
                depth <= MAX_QUOTE_DEPTH,
                v == node_views(nodes@),
                hl.wf(),
                hl.look() == look,
                sc == self.scene(look),
                list(
                    sc,
                    v,
                    j as int,
                    end as int,
                    marks,
                    number,
                    prev_end,
                    width,
                    depth as int,
                    out@,
                ) == goal,
            decreases end - j,
        {
            let k: usize = node_end(nodes, j, end);
            assert(v[j as int] == nodes@[j as int]@);
            self.render_list_item(nodes, j, k, marks, number, prev_end, width, depth, hl, out);
            // Advance the ordinal once per item, whether it renders raw or preview.
            if marks.ordered {
                number = number.saturating_add(1);
            }
            prev_end = Some(nodes[j].end_line.saturating_sub(1));
            j = k;
        }
    }

    /// The blank line(s) between loose items. If the cursor sits in
    /// that gap (with no item to open), emit it as the raw hole;
    /// otherwise it is a plain blank separator.
    fn separate(
        &self,
        tight: bool,
        prev_end: Option<usize>,
        item_start: usize,
        out: &mut Canvas,
        look: Ghost<CodeLook>,
    )
        ensures
            final(out)@ == separated(self.scene(look@), tight, prev_end, item_start, old(out)@),
    {
        if let Some(e) = prev_end {
            if !tight {
                let from: usize = e.saturating_add(1);
                let to: usize = item_start.saturating_sub(1);
                if from > to {
                    out.push(Row { line: Line::empty(), source: None });
                } else if !self.try_emit_raw_range((from, to), out, look) {
                    // The separator stands in for the blank source line(s).
                    out.push(Row { line: Line::empty(), source: Some(from.saturating_add(1)) });
                }
            }
        }
    }

    fn render_list_item(
        &self,
        nodes: &Vec<Node>,
        j: usize,
        k: usize,
        marks: ListInfo,
        ordinal: usize,
        prev_end: Option<usize>,
        width: usize,
        depth: usize,
        hl: &mut CodeHighlighter,
        out: &mut Canvas,
    )
        requires
            j < k <= nodes@.len(),
            depth <= MAX_QUOTE_DEPTH,
            old(hl).wf(),
        ensures
            final(hl).wf(),
            final(hl).look() == old(hl).look(),
            final(out)@ == list_item(
                self.scene(old(hl).look()),
                node_views(nodes@),
                j as int,
                k as int,
                marks,
                ordinal,
                prev_end,
                width,
                depth as int,
                old(out)@,
            ),
        decreases k - j, 2int,
    {
        let ghost v = node_views(nodes@);
        let ghost look = hl.look();
        let ghost sc = self.scene(look);
        assert(v[j as int] == nodes@[j as int]@);
        let item_start: usize = nodes[j].start_line.saturating_sub(1);
        self.separate(marks.tight, prev_end, item_start, out, Ghost(look));
        // The active item renders raw (its source already carries its marker).
        if self.try_emit_raw(nodes, j, out, Ghost(look)) {
            return;
        }
        let ghost t = out@;
        let item_first: usize = out.rows.len();
        assert(item_first == t.rows.len());
        let mut marker = self.marker(&nodes[j].kind, marks, ordinal, '\u{2022}');
        let ghost mark = marker@;
        marker.text.push(' ');
        let marker_w: usize = crate::text::width(marker.text.as_str());
        let inner_w: usize = narrowed(width, marker_w);
        let mut inner = out.inside();
        self.render_item(nodes, j + 1, k, inner_w, depth, hl, &mut inner);
        // An empty item stays visible: bullets and numbers show their raw
        // marker (`-`, `1.`), while a task keeps its checkbox glyph.
        if rows_blank(&inner.rows) {
            let plain = self.marker(&nodes[j].kind, marks, ordinal, marks.bullet as char);
            out.push(Row { line: Line::of(plain), source: Some(item_start.saturating_add(1)) });
            return;
        }
        let cont = Span::raw(repeat_char(' ', marker_w));
        out.at = out.landing(&inner);
        prefix_lines(&mut out.rows, &inner.rows, &marker, &cont);
        // Label the item's marker row, unless its first child recorded
        // something more precise (e.g. an item starting with a sub-block).
        out.label(item_first, item_start.saturating_add(1));
    }

    fn marker(&self, kind: &NodeKind, marks: ListInfo, ordinal: usize, plain: char) -> (span: Span)
        ensures
            span@ == marker_of(kind@, marks, ordinal, plain, *self.theme),
    {
        match kind {
            NodeKind::TaskItem { checked } => if *checked {
                Span::styled(text_of_char('\u{25a0}'), self.theme.task_done)
            } else {
                Span::styled(text_of_char('\u{25a1}'), self.theme.task_todo)
            },
            _ => if marks.ordered {
                let mut text = String::new();
                push_decimal(&mut text, ordinal);
                let delim = if marks.paren {
                    ')'
                } else {
                    '.'
                };
                text.push(delim);
                assert(text@ =~= decimal(ordinal as nat).push(delim));
                Span::styled(text, self.theme.list_marker)
            } else {
                Span::styled(text_of_char(plain), self.theme.list_marker)
            },
        }
    }

    /// Render a list item's blocks: the first paragraph inline (so it sits on
    /// the marker line); everything else as nested blocks.
    fn render_item(
        &self,
        nodes: &Vec<Node>,
        start: usize,
        end: usize,
        width: usize,
        depth: usize,
        hl: &mut CodeHighlighter,
        out: &mut Canvas,
    )
        requires
            start <= end <= nodes@.len(),
            depth <= MAX_QUOTE_DEPTH,
            old(hl).wf(),
        ensures
            final(hl).wf(),
            final(hl).look() == old(hl).look(),
            final(out)@ == item_content(
                self.scene(old(hl).look()),
                node_views(nodes@),
                start as int,
                end as int,
                width,
                depth as int,
                true,
                old(out)@,
            ),
        decreases end - start, 2int,
    {
        let ghost v = node_views(nodes@);
        let ghost look = hl.look();
        let ghost sc = self.scene(look);
        let ghost goal = item_content(
            sc,
            v,
            start as int,
            end as int,
            width,
            depth as int,
            true,
            out@,
        );
        let mut first = true;
        let mut j: usize = start;
        while j < end
            invariant
                start <= j <= end <= nodes@.len(),
                depth <= MAX_QUOTE_DEPTH,
                v == node_views(nodes@),
                hl.wf(),
                hl.look() == look,
                sc == self.scene(look),
                item_content(
                    sc,
                    v,
                    j as int,
                    end as int,
                    width,
                    depth as int,
                    first,
                    out@,
                ) == goal,
            decreases end - j,
        {
            let k: usize = node_end(nodes, j, end);
            assert(v[j as int] == nodes@[j as int]@);
            let is_paragraph = matches!(nodes[j].kind, NodeKind::Paragraph);
            if first && is_paragraph {
                let segs = self.inline_segs(nodes, j + 1, k, self.theme.text);
                out.push_lines(&wrap(&segs, width, true));
            } else {
                self.render_block(nodes, j, k, width, depth, hl, out);
            }
            first = false;
            j = k;
        }
    }

    fn render_table(
        &self,
        nodes: &Vec<Node>,
        start: usize,
        end: usize,
        alignments: &Vec<Alignment>,
        width: usize,
        out: &mut Canvas,
    )
        requires
            start <= end <= nodes@.len(),
        ensures
            final(out)@ == old(out)@.plus_rows(
                grid(
                    grid_rows(*self.theme, node_views(nodes@), start as int, end as int),
                    alignments@,
                    width,
                    *self.theme,
                ),
            ),
    {
        // Collect rows of cells as styled inline segments so per-cell formatting
        // (bold, code, links) is preserved, not flattened to plain text. Each
        // pipe row keeps its source line so the grid rows can be labeled.
        let rows = self.collect_rows(nodes, start, end);
        let ghost v = table_views(rows@);
        let ghost theme = *self.theme;
        let ghost before = out@;
        let count: usize = column_count(&rows, alignments.len());
        if count == 0 {
            assert(out@.rows =~= before.rows + Seq::<RowView>::empty());
            return;
        }
        // Natural column widths, then shrink to fit `width` (accounting for
        // borders and one space of padding each side).
        let mut col_w = column_widths(&rows, count);
        let chrome: usize = count.saturating_add(1).saturating_add(count).saturating_add(count);
        let room: usize = width.saturating_sub(chrome);
        let budget: usize = if room < count {
            count
        } else {
            room
        };
        shrink_to_fit(&mut col_w, budget);
        let ghost ws = col_w@;
        let border = self.theme.table_border;
        // Borders are chrome with no source line; each grid row carries its
        // pipe row's line, and the header separator the `|---|` delimiter's.
        let top = border_of(&col_w, '\u{256d}', '\u{252c}', '\u{256e}', border);
        out.push(Row { line: top, source: None });
        let ghost head = out@.rows;
        let mut i: usize = 0;
        assert(table_views(rows@).len() == rows@.len());
        assert(out@.rows =~= head + grid_body(v, 0, ws, alignments@, theme));
        while i < rows.len()
            invariant
                i <= rows@.len(),
                v == table_views(rows@),
                ws == col_w@,
                theme == *self.theme,
                border == theme.table_border,
                out@.at == before.at,
                out@.rows == head + grid_body(v, i as int, ws, alignments@, theme),
            decreases rows@.len() - i,
        {
            let ghost prior = grid_body(v, i as int, ws, alignments@, theme);
            assert(v[i as int] == rows@[i as int]@);
            let line = self.grid_line(&rows[i], &col_w, alignments);
            let row = Row { line, source: Some(rows[i].line) };
            let ghost one = row@;
            out.push(row);
            assert(out@.rows =~= head + prior.push(one));
            if rows[i].header && i == 0 {
                let line = border_of(&col_w, '\u{251c}', '\u{253c}', '\u{2524}', border);
                let sep = Row { line, source: Some(rows[i].line.saturating_add(1)) };
                let ghost two = sep@;
                out.push(sep);
                assert(out@.rows =~= head + prior.push(one).push(two));
            }
            i += 1;
        }
        let bottom = border_of(&col_w, '\u{2570}', '\u{2534}', '\u{256f}', border);
        out.push(Row { line: bottom, source: None });
        proof {
            let all = grid(v, alignments@, width, theme);
            assert(out@.rows =~= before.rows + all);
        }
    }

    fn collect_cells(&self, nodes: &Vec<Node>, start: usize, end: usize) -> (cells: Vec<Vec<Span>>)
        requires
            start <= end <= nodes@.len(),
        ensures
            cells_views(cells@) == row_cells(
                *self.theme,
                node_views(nodes@),
                start as int,
                end as int,
            ),
    {
        let ghost v = node_views(nodes@);
        let ghost theme = *self.theme;
        let ghost goal = row_cells(theme, v, start as int, end as int);
        let mut cells: Vec<Vec<Span>> = Vec::new();
        let mut j: usize = start;
        assert(cells_views(cells@) + goal =~= goal);
        while j < end
            invariant
                start <= j <= end <= nodes@.len(),
                v == node_views(nodes@),
                theme == *self.theme,
                cells_views(cells@) + row_cells(theme, v, j as int, end as int) == goal,
            decreases end - j,
        {
            let k: usize = node_end(nodes, j, end);
            let ghost before = cells_views(cells@);
            let cell = self.inline_segs(nodes, j + 1, k, self.theme.text);
            let ghost added = span_views(cell@);
            cells.push(cell);
            assert(cells_views(cells@) =~= before.push(added));
            assert(cells_views(cells@) + row_cells(theme, v, k as int, end as int) =~= before + (
            seq![added] + row_cells(theme, v, k as int, end as int)));
            j = k;
        }
        assert(cells_views(cells@) + row_cells(theme, v, j as int, end as int) =~= cells_views(
            cells@,
        ));
        cells
    }

    fn collect_rows(&self, nodes: &Vec<Node>, start: usize, end: usize) -> (rows: Vec<TableRow>)
        requires
            start <= end <= nodes@.len(),
        ensures
            table_views(rows@) == grid_rows(
                *self.theme,
                node_views(nodes@),
                start as int,
                end as int,
            ),
    {
        let ghost v = node_views(nodes@);
        let ghost theme = *self.theme;
        let ghost goal = grid_rows(theme, v, start as int, end as int);
        let mut rows: Vec<TableRow> = Vec::new();
        let mut j: usize = start;
        assert(table_views(rows@) + goal =~= goal);
        while j < end
            invariant
                start <= j <= end <= nodes@.len(),
                v == node_views(nodes@),
                theme == *self.theme,
                table_views(rows@) + grid_rows(theme, v, j as int, end as int) == goal,
            decreases end - j,
        {
            let k: usize = node_end(nodes, j, end);
            let ghost before = table_views(rows@);
            assert(v[j as int] == nodes@[j as int]@);
            let header = match &nodes[j].kind {
                NodeKind::TableRow { header } => *header,
                _ => false,
            };
            let row = TableRow {
                header,
                line: nodes[j].start_line,
                cells: self.collect_cells(nodes, j + 1, k),
            };
            let ghost added = row@;
            rows.push(row);
            assert(table_views(rows@) =~= before.push(added));
            assert(table_views(rows@) + grid_rows(theme, v, k as int, end as int) =~= before + (
            seq![added] + grid_rows(theme, v, k as int, end as int)));
            j = k;
        }
        assert(table_views(rows@) + grid_rows(theme, v, j as int, end as int) =~= table_views(
            rows@,
        ));
        rows
    }

    /// One grid row.
    fn grid_line(&self, row: &TableRow, ws: &Vec<usize>, alignments: &Vec<Alignment>) -> (line:
        Line)
        ensures
            line@ == grid_cells(row@, ws@, ws@.len() as int, alignments@, *self.theme),
    {
        let ghost theme = *self.theme;
        let border = self.theme.table_border;
        // Header cells layer the theme's header emphasis (bold) over their
        // own inline styles.
        let extra = if row.header {
            Some(self.theme.table_header)
        } else {
            None
        };
        let empty: Vec<Span> = Vec::new();
        assert(span_views(empty@) =~= Seq::empty());
        let mut spans: Vec<Span> = Vec::new();
        spans.push(Span::styled(text_of_char('\u{2502}'), border));
        let mut c: usize = 0;
        assert(cells_views(row.cells@).len() == row.cells@.len());
        assert(span_views(spans@) =~= grid_cells(row@, ws@, 0, alignments@, theme));
        while c < ws.len()
            invariant
                c <= ws@.len(),
                theme == *self.theme,
                border == theme.table_border,
                extra == (if row.header {
                    Some(theme.table_header)
                } else {
                    None
                }),
                span_views(empty@) == Seq::<SpanView>::empty(),
                row@.cells.len() == row.cells@.len(),
                span_views(spans@) == grid_cells(row@, ws@, c as int, alignments@, theme),
            decreases ws@.len() - c,
        {
            let ghost before = span_views(spans@);
            let cell = if c < row.cells.len() {
                &row.cells[c]
            } else {
                &empty
            };
            assert(c < row.cells@.len() ==> row@.cells[c as int] == span_views(cell@));
            let align = if c < alignments.len() {
                alignments[c]
            } else {
                Alignment::Unset
            };
            let fit = fit_segs(cell, ws[c], align, extra);
            let ghost body = span_views(fit@);
            push_plain_space(&mut spans);
            append_spans(&mut spans, &fit);
            push_plain_space(&mut spans);
            push_span(&mut spans, text_of_char('\u{2502}'), border);
            c += 1;
            proof {
                let bar = shown(seq!['\u{2502}'], border);
                assert(span_views(spans@) =~= before + (seq![raw(seq![' '])] + body + seq![
                    raw(seq![' ']),
                    bar,
                ]));
            }
        }
        Line { spans }
    }
}

fn push_plain_space(out: &mut Vec<Span>)
    ensures
        span_views(final(out)@) == span_views(old(out)@) + seq![raw(seq![' '])],
{
    push_span(out, text_of_char(' '), Style::new());
}

/// A table row.
struct TableRow {
    header: bool,
    line: usize,
    cells: Vec<Vec<Span>>,
}

spec fn cells_views(cells: Seq<Vec<Span>>) -> Seq<Seq<SpanView>> {
    cells.map_values(|c: Vec<Span>| span_views(c@))
}

impl View for TableRow {
    type V = GridRow;

    closed spec fn view(&self) -> GridRow {
        GridRow { header: self.header, line: self.line, cells: cells_views(self.cells@) }
    }
}

spec fn table_views(rows: Seq<TableRow>) -> Seq<GridRow> {
    rows.map_values(|r: TableRow| r@)
}

fn column_count(rows: &Vec<TableRow>, least: usize) -> (count: usize)
    ensures
        count == most_cells(table_views(rows@), table_views(rows@).len() as int, least as int),
{
    let ghost v = table_views(rows@);
    assert(v.len() == rows@.len());
    let mut count: usize = least;
    let mut i: usize = 0;
    while i < rows.len()
        invariant
            i <= rows@.len(),
            v == table_views(rows@),
            v.len() == rows@.len(),
            count == most_cells(v, i as int, least as int),
        decreases rows@.len() - i,
    {
        assert(v[i as int] == rows@[i as int]@);
        assert(cells_views(rows@[i as int].cells@).len() == rows@[i as int].cells@.len());
        if rows[i].cells.len() > count {
            count = rows[i].cells.len();
        }
        i += 1;
    }
    count
}

fn column_widths(rows: &Vec<TableRow>, count: usize) -> (ws: Vec<usize>)
    ensures
        ws@ == natural_widths(table_views(rows@), count as int),
{
    let ghost v = table_views(rows@);
    assert(v.len() == rows@.len());
    let mut ws: Vec<usize> = Vec::new();
    let mut c: usize = 0;
    while c < count
        invariant
            c <= count,
            v == table_views(rows@),
            v.len() == rows@.len(),
            ws@.len() == c,
            forall|k: int| 0 <= k < c ==> ws@[k] == natural_width(v, v.len() as int, k),
        decreases count - c,
    {
        let mut w: usize = 0;
        let mut i: usize = 0;
        while i < rows.len()
            invariant
                i <= rows@.len(),
                v == table_views(rows@),
                v.len() == rows@.len(),
                w == natural_width(v, i as int, c as int),
            decreases rows@.len() - i,
        {
            assert(v[i as int] == rows@[i as int]@);
            assert(cells_views(rows@[i as int].cells@).len() == rows@[i as int].cells@.len());
            if c < rows[i].cells.len() {
                assert(v[i as int].cells[c as int] == span_views(
                    rows@[i as int].cells@[c as int]@,
                ));
                let here: usize = segs_width(&rows[i].cells[c]);
                if here > w {
                    w = here;
                }
            }
            i += 1;
        }
        ws.push(w);
        c += 1;
    }
    assert(ws@ =~= natural_widths(v, count as int));
    ws
}

fn border_of(ws: &Vec<usize>, left: char, mid: char, right: char, style: Style) -> (line: Line)
    ensures
        line@ == border_line(ws@, left, mid, right, style),
{
    let mut text = String::new();
    text.push(left);
    let mut i: usize = 0;
    assert(text@ =~= seq![left] + dashes(ws@, 0, mid));
    while i < ws.len()
        invariant
            i <= ws@.len(),
            text@ == seq![left] + dashes(ws@, i as int, mid),
        decreases ws@.len() - i,
    {
        let ghost before = dashes(ws@, i as int, mid);
        if i > 0 {
            text.push(mid);
        }
        push_repeated(&mut text, '\u{2500}', ws[i].saturating_add(2));
        i += 1;
        assert(text@ =~= seq![left] + dashes(ws@, i as int, mid));
    }
    text.push(right);
    assert(text@ =~= seq![left] + dashes(ws@, ws@.len() as int, mid) + seq![right]);
    Line::of(Span::styled(text, style))
}

fn push_code_rows(out: &mut Vec<Row>, rows: &Vec<Row>, start: usize)
    ensures
        row_views(final(out)@) == row_views(old(out)@) + code_rows(row_views(rows@), start),
{
    let ghost before = row_views(out@);
    let ghost all = code_rows(row_views(rows@), start);
    let mut i: usize = 0;
    assert(row_views(out@) =~= before + all.take(0));
    while i < rows.len()
        invariant
            i <= rows@.len(),
            all == code_rows(row_views(rows@), start),
            row_views(out@) == before + all.take(i as int),
        decreases rows@.len() - i,
    {
        let row = Row {
            line: rows[i].line.copy(),
            source: match rows[i].source {
                Some(n) => Some(start.saturating_add(n)),
                None => None,
            },
        };
        let ghost added = row@;
        assert(added == all[i as int]);
        push_row(out, row);
        i += 1;
        assert(all.take(i as int) =~= all.take(i - 1).push(added));
        assert(row_views(out@) =~= before + all.take(i as int));
    }
    assert(all.take(i as int) =~= all);
}

fn push_html_rows(out: &mut Vec<Row>, lines: &Vec<String>, start: usize, style: Style)
    ensures
        row_views(final(out)@) == row_views(old(out)@) + html_rows(views(lines@), start, style),
{
    let ghost before = row_views(out@);
    let ghost all = html_rows(views(lines@), start, style);
    let mut i: usize = 0;
    assert(views(lines@).len() == lines@.len());
    assert(row_views(out@) =~= before + all.take(0));
    while i < lines.len()
        invariant
            i <= lines@.len(),
            all == html_rows(views(lines@), start, style),
            all.len() == lines@.len(),
            row_views(out@) == before + all.take(i as int),
        decreases lines@.len() - i,
    {
        assert(views(lines@)[i as int] == lines@[i as int]@);
        let row = Row {
            line: Line::of(Span::styled(lines[i].clone(), style)),
            source: Some(start.saturating_add(i)),
        };
        let ghost added = row@;
        assert(added == all[i as int]);
        push_row(out, row);
        i += 1;
        assert(all.take(i as int) =~= all.take(i - 1).push(added));
        assert(row_views(out@) =~= before + all.take(i as int));
    }
    assert(all.take(i as int) =~= all);
}

fn blank_text(text: &str) -> (blank: bool)
    ensures
        blank == (trimmed(text@).len() == 0),
{
    let chars = to_chars(text);
    let (a, b) = trim_bounds(&chars);
    assert(chars@.subrange(a as int, b as int).len() == b - a);
    a == b
}

fn rows_blank(rows: &Vec<Row>) -> (blank: bool)
    ensures
        blank == all_blank(row_views(rows@)),
{
    let ghost v = row_views(rows@);
    let mut i: usize = 0;
    while i < rows.len()
        invariant
            i <= rows@.len(),
            v == row_views(rows@),
            forall|m: int, k: int|
                0 <= m < i && 0 <= k < v[m].line.len() ==> trimmed(
                    (#[trigger] v[m].line[k]).text,
                ).len() == 0,
        decreases rows@.len() - i,
    {
        let spans = &rows[i].line.spans;
        assert(v[i as int].line == span_views(spans@));
        let mut k: usize = 0;
        while k < spans.len()
            invariant
                k <= spans@.len(),
                i < v.len(),
                v == row_views(rows@),
                v[i as int].line == span_views(spans@),
                forall|m: int|
                    0 <= m < k ==> trimmed((#[trigger] v[i as int].line[m]).text).len() == 0,
            decreases spans@.len() - k,
        {
            assert(v[i as int].line[k as int] == spans@[k as int]@);
            if !blank_text(spans[k].text.as_str()) {
                assert(trimmed(v[i as int].line[k as int].text).len() != 0);
                return false;
            }
            k += 1;
        }
        i += 1;
    }
    true
}

/// What a rendering of a whole document depends on.
pub open spec fn plain_scene(theme: MarkdownTheme, look: CodeLook) -> Scene {
    Scene { theme, look, hole: None }
}

/// Parse `source` and render the whole document to styled lines for `width`.
pub fn render(
    source: &str,
    width: usize,
    theme: &MarkdownTheme,
    highlighter: &mut CodeHighlighter,
) -> (lines: Vec<Line>)
    requires
        old(highlighter).wf(),
    ensures
        final(highlighter).wf(),
        final(highlighter).look() == old(highlighter).look(),
        line_views(lines@) == document(
            plain_scene(*theme, old(highlighter).look()),
            parsed(source@),
            width,
        ).map_values(|r: RowView| r.line),
{
    let rows = render_rows(source, width, theme, highlighter);
    let ghost v = row_views(rows@);
    let mut lines: Vec<Line> = Vec::new();
    let mut i: usize = 0;
    while i < rows.len()
        invariant
            i <= rows@.len(),
            v == row_views(rows@),
            lines@.len() == i,
            forall|k: int| 0 <= k < i ==> (#[trigger] lines@[k])@ == v[k].line,
        decreases rows@.len() - i,
    {
        assert(v[i as int] == rows@[i as int]@);
        lines.push(rows[i].line.copy());
        i += 1;
    }
    assert(line_views(lines@) =~= v.map_values(|r: RowView| r.line));
    lines
}

/// Like [`render`], but each row also carries the source line it begins.
pub fn render_rows(
    source: &str,
    width: usize,
    theme: &MarkdownTheme,
    highlighter: &mut CodeHighlighter,
) -> (rows: Vec<Row>)
    requires
        old(highlighter).wf(),
    ensures
        final(highlighter).wf(),
        final(highlighter).look() == old(highlighter).look(),
        row_views(rows@) == document(
            plain_scene(*theme, old(highlighter).look()),
            parsed(source@),
            width,
        ),
{
    let nodes = parse(source);
    render_nodes(&nodes, width, theme, highlighter)
}

/// Render a parsed document whole.
pub fn render_nodes(
    nodes: &Vec<Node>,
    width: usize,
    theme: &MarkdownTheme,
    highlighter: &mut CodeHighlighter,
) -> (rows: Vec<Row>)
    requires
        old(highlighter).wf(),
    ensures
        final(highlighter).wf(),
        final(highlighter).look() == old(highlighter).look(),
        row_views(rows@) == document(
            plain_scene(*theme, old(highlighter).look()),
            node_views(nodes@),
            width,
        ),
{
    let renderer = Renderer { theme, active: None };
    let mut canvas = Canvas { rows: Vec::new(), at: None };
    assert(canvas@.rows =~= Seq::empty());
    assert(node_views(nodes@).len() == nodes@.len());
    let ghost sc = renderer.scene(highlighter.look());
    assert(sc == plain_scene(*theme, highlighter.look()));
    let w: usize = narrowed(width, 0);
    if nodes.len() > 1 {
        renderer.render_block_children(
            nodes,
            1,
            nodes.len(),
            w,
            0,
            true,
            highlighter,
            &mut canvas,
        );
    }
    if canvas.rows.is_empty() {
        assert(canvas@.rows.len() == 0);
        let mut rows: Vec<Row> = Vec::new();
        let row = Row { line: Line::empty(), source: None };
        let ghost one = row@;
        rows.push(row);
        assert(row_views(rows@) =~= seq![one]);
        return rows;
    }
    canvas.rows
}

/// Render a single already-parsed block to preview rows: the node at `i`, whose subtree
/// ends at `end`. Used by the hybrid view to render inactive blocks (the active block
/// renders raw instead).
pub fn render_block_node(
    nodes: &Vec<Node>,
    i: usize,
    end: usize,
    width: usize,
    theme: &MarkdownTheme,
    highlighter: &mut CodeHighlighter,
) -> (rows: Vec<Row>)
    requires
        i < end <= nodes@.len(),
        old(highlighter).wf(),
    ensures
        final(highlighter).wf(),
        final(highlighter).look() == old(highlighter).look(),
        row_views(rows@) == block(
            plain_scene(*theme, old(highlighter).look()),
            node_views(nodes@),
            i as int,
            end as int,
            inner_width(width, 0),
            0,
            Sheet { rows: Seq::empty(), at: None },
        ).rows,
{
    let renderer = Renderer { theme, active: None };
    let mut canvas = Canvas { rows: Vec::new(), at: None };
    assert(canvas@.rows =~= Seq::empty());
    renderer.render_block(nodes, i, end, narrowed(width, 0), 0, highlighter, &mut canvas);
    canvas.rows
}

/// Render a block as preview, but with one descendant block (`active`) emitted
/// as raw lines in place ("preview with a hole"). Returns the rendered rows and
/// the index where the raw block landed (for cursor placement).
pub fn render_block_with_hole(
    nodes: &Vec<Node>,
    i: usize,
    end: usize,
    width: usize,
    theme: &MarkdownTheme,
    highlighter: &mut CodeHighlighter,
    active: &mut ActiveLeaf,
) -> (r: (Vec<Row>, Option<usize>))
    requires
        i < end <= nodes@.len(),
        old(highlighter).wf(),
    ensures
        final(highlighter).wf(),
        final(highlighter).look() == old(highlighter).look(),
        final(active).hole() == old(active).hole(),
        final(active).landed() == r.1,
        ({
            let sheet = block(
                Scene {
                    theme: *theme,
                    look: old(highlighter).look(),
                    hole: Some(old(active).hole()),
                },
                node_views(nodes@),
                i as int,
                end as int,
                inner_width(width, 0),
                0,
                Sheet { rows: Seq::empty(), at: old(active).landed() },
            );
            row_views(r.0@) == sheet.rows && r.1 == sheet.at
        }),
{
    let mut canvas = Canvas { rows: Vec::new(), at: active.start_index };
    assert(canvas@.rows =~= Seq::empty());
    let renderer = Renderer { theme, active: Some(&*active) };
    renderer.render_block(nodes, i, end, narrowed(width, 0), 0, highlighter, &mut canvas);
    let at = canvas.at;
    active.start_index = at;
    (canvas.rows, at)
}

} // verus!
