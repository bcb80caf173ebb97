//! The live view: the document rendered in place, with the source of what is under the
//! cursor in the midst of it.
//!
//! A block that the cursor is not in is shown as the preview shows it; of the block that
//! it is in, what it is in (the item of a list, or else the whole block) is shown as
//! source. Lines between blocks are source too.

use vstd::prelude::*;

use crate::block_cache::{BlockKey, BlockMemory, BLOCK_CACHE_LIMIT};
use crate::layout::{first_row, lemma_rows_before, total_of, Layout};
use crate::line_index::least;
use crate::markdown::ast::{node_end, node_views, subtree_end, Node, NodeKind, NodeView};
use crate::markdown::highlight::{CodeHighlighter, CodeLook};
use crate::markdown::preview::{
    block, inner_width, range_of, render_block_with_hole, row_views,
    ActiveLeaf, HoleView, Row, RowView, Scene, Sheet,
};
use crate::markdown::theme::MarkdownTheme;
use crate::rope::line_count;
use crate::style::{line_views, Line, SpanView};

verus! {

/// A row of the live view.
#[derive(Debug)]
pub enum LiveRow {
    /// A row of the source, as it is laid out.
    Source(usize),
    /// A rendered row, and the first line of the block that it belongs to.
    Shown { row: Row, block: usize },
}

/// What a [`LiveRow`] is.
pub enum LiveRowView {
    Source(int),
    Shown { row: RowView, block: int },
}

impl View for LiveRow {
    type V = LiveRowView;

    open spec fn view(&self) -> LiveRowView {
        match self {
            LiveRow::Source(row) => LiveRowView::Source(*row as int),
            LiveRow::Shown { row, block } => LiveRowView::Shown { row: row@, block: *block as int },
        }
    }
}

/// What live rows are.
pub open spec fn live_row_views(rows: Seq<LiveRow>) -> Seq<LiveRowView> {
    rows.map_values(|r: LiveRow| r@)
}

/// The rows of a live view, the lines that are open as source, and the row that they begin
/// at.
#[derive(Debug)]
pub struct LiveView {
    pub rows: Vec<LiveRow>,
    pub first: usize,
    pub last: usize,
    pub top: usize,
}

/// What a [`LiveView`] is.
#[verifier::ext_equal]
pub struct Live {
    pub rows: Seq<LiveRowView>,
    pub first: int,
    pub last: int,
    pub top: int,
}

impl View for LiveView {
    type V = Live;

    open spec fn view(&self) -> Live {
        Live {
            rows: live_row_views(self.rows@),
            first: self.first as int,
            last: self.last as int,
            top: self.top as int,
        }
    }
}

/// What a live view is made of: the parsed document, its lines and the rows of each, the
/// width, the looks, and the line of the cursor.
pub struct Page {
    pub nodes: Seq<NodeView>,
    pub total: int,
    pub counts: Seq<usize>,
    pub width: usize,
    pub theme: MarkdownTheme,
    pub look: CodeLook,
    pub at: int,
}

/// Whether a line is one of a range.
pub open spec fn holds(range: (usize, usize), line: int) -> bool {
    range.0 <= line <= range.1
}

/// The first block of the document, from node `i` on, that a line belongs to.
pub open spec fn block_at(nodes: Seq<NodeView>, i: int, line: int) -> Option<int>
    decreases nodes.len() - i,
{
    if i >= nodes.len() {
        None
    } else if nodes[i].depth == 2 && holds(range_of(nodes[i]), line) {
        Some(i)
    } else {
        block_at(nodes, i + 1, line)
    }
}

/// The lines of the item of a list that a line is in, or else those between the two items
/// that it is between; `before` is the last line of the item before.
pub open spec fn item_at(
    nodes: Seq<NodeView>,
    depth: int,
    j: int,
    end: int,
    before: Option<usize>,
    line: int,
) -> Option<(usize, usize)>
    decreases end - j,
{
    if j >= end {
        None
    } else if nodes[j].depth != depth {
        item_at(nodes, depth, j + 1, end, before, line)
    } else {
        let r = range_of(nodes[j]);
        if holds(r, line) {
            Some(r)
        } else if before is Some && before->0 < line < r.0 {
            Some(((before->0 + 1) as usize, (r.0 - 1) as usize))
        } else {
            item_at(nodes, depth, j + 1, end, Some(r.1), line)
        }
    }
}

/// The lines that are opened in a block where the cursor is on a line of it.
pub open spec fn leaf_of(nodes: Seq<NodeView>, i: int, end: int, line: int) -> (usize, usize) {
    if nodes[i].kind is List {
        match item_at(nodes, nodes[i].depth + 1, i + 1, end, None, line) {
            Some(r) => r,
            None => range_of(nodes[i]),
        }
    } else {
        range_of(nodes[i])
    }
}

/// The rows of the source of some lines.
pub open spec fn source_rows(counts: Seq<usize>, a: int, z: int) -> Seq<LiveRowView> {
    Seq::new(
        (first_row(counts, z + 1) - first_row(counts, a)) as nat,
        |k: int| LiveRowView::Source(first_row(counts, a) + k),
    )
}

/// Rendered rows of a block.
pub open spec fn shown_rows(rows: Seq<RowView>, block: int) -> Seq<LiveRowView> {
    rows.map_values(|row: RowView| LiveRowView::Shown { row, block })
}

/// As many empty lines as the source of some lines has rows.
pub open spec fn blank_lines(n: int) -> Seq<Seq<SpanView>> {
    Seq::new(n as nat, |k: int| Seq::<SpanView>::empty())
}

impl Page {
    /// The rows of a block with a hole.
    pub open spec fn sheet(self, i: int, hole: HoleView) -> Sheet {
        block(
            Scene { theme: self.theme, look: self.look, hole: Some(hole) },
            self.nodes,
            i,
            subtree_end(self.nodes, i, self.nodes.len() as int),
            inner_width(self.width, 0),
            0,
            Sheet { rows: Seq::empty(), at: None },
        )
    }

    /// What a block is found by among those that were rendered: its own nodes.
    pub open spec fn key(self, i: int) -> BlockKey {
        BlockKey {
            nodes: self.nodes.subrange(i, subtree_end(self.nodes, i, self.nodes.len() as int)),
            width: self.width,
            theme: self.theme,
        }
    }

    /// The rows of a block.
    pub open spec fn shown(self, i: int) -> Seq<RowView> {
        self.key(i).rows(self.look)
    }

    /// The last line of a block that there is.
    pub open spec fn block_end(self, i: int) -> int {
        least(range_of(self.nodes[i]).1 as int, self.total - 1)
    }

    /// The lines that are opened in a block.
    pub open spec fn leaf(self, i: int) -> (usize, usize) {
        leaf_of(self.nodes, i, subtree_end(self.nodes, i, self.nodes.len() as int), self.at)
    }

    /// The rows that the source of the opened lines has.
    pub open spec fn leaf_rows(self, i: int) -> int {
        first_row(self.counts, self.leaf(i).1 + 1) - first_row(self.counts, self.leaf(i).0 as int)
    }

    /// The rows of a block around the opened lines.
    pub open spec fn around(self, i: int) -> Sheet {
        self.sheet(
            i,
            HoleView { lines: self.leaf(i), raw: blank_lines(self.leaf_rows(i)) },
        )
    }

    /// Whether a block can be opened at the lines that the cursor is in.
    pub open spec fn opens(self, i: int) -> bool {
        &&& holds(self.leaf(i), self.at)
        &&& self.leaf(i).1 < self.total
        &&& self.around(i).at is Some
        &&& self.around(i).at->0 + self.leaf_rows(i) <= self.around(i).rows.len()
    }
}

impl Live {
    /// With lines of source.
    pub open spec fn with_source(self, counts: Seq<usize>, a: int, z: int) -> Live {
        Live { rows: self.rows + source_rows(counts, a, z), ..self }
    }

    /// With rendered rows of a block.
    pub open spec fn with_shown(self, rows: Seq<RowView>, block: int) -> Live {
        Live { rows: self.rows + shown_rows(rows, block), ..self }
    }

    /// With lines of source that the cursor is in.
    pub open spec fn with_open(self, counts: Seq<usize>, a: int, z: int) -> Live {
        Live { first: a, last: z, top: self.rows.len() as int, ..self }.with_source(counts, a, z)
    }

    /// With the lines `a` to `z` of a block.
    pub open spec fn with_block(self, p: Page, i: int, a: int, z: int) -> Live {
        if !(a <= p.at <= z) {
            self.with_shown(p.shown(i), a)
        } else if p.opens(i) {
            let s = p.around(i);
            self.with_shown(s.rows.take(s.at->0 as int), a).with_open(
                p.counts,
                p.leaf(i).0 as int,
                p.leaf(i).1 as int,
            ).with_shown(s.rows.skip(s.at->0 + p.leaf_rows(i)), a)
        } else {
            self.with_open(p.counts, a, z)
        }
    }

    /// With the lines from `line` on.
    pub open spec fn with_lines(self, p: Page, line: int) -> Live
        decreases p.total - line,
    {
        if line >= p.total || line < 0 {
            self
        } else {
            match block_at(p.nodes, 0, line) {
                None => if line == p.at {
                    self.with_open(p.counts, line, line)
                } else {
                    self.with_source(p.counts, line, line)
                }.with_lines(p, line + 1),
                Some(i) => if p.block_end(i) < line {
                    self
                } else {
                    self.with_block(p, i, line, p.block_end(i)).with_lines(p, p.block_end(i) + 1)
                },
            }
        }
    }

    /// No rows.
    pub open spec fn nothing() -> Live {
        Live { rows: Seq::empty(), first: 0, last: 0, top: 0 }
    }
}

/// The live view of a page.
#[verifier::opaque]
pub open spec fn live_view(p: Page) -> Live {
    Live::nothing().with_lines(p, 0)
}

/// The rendered blocks that are held once the lines from `line` on are shown.
pub open spec fn remembered(p: Page, m: BlockMemory, line: int) -> BlockMemory
    decreases p.total - line,
{
    if line >= p.total || line < 0 {
        m
    } else {
        match block_at(p.nodes, 0, line) {
            None => remembered(p, m, line + 1),
            Some(i) => if p.block_end(i) < line {
                m
            } else {
                remembered(
                    p,
                    if line <= p.at <= p.block_end(i) {
                        m
                    } else {
                        m.with_block(p.key(i))
                    },
                    p.block_end(i) + 1,
                )
            },
        }
    }
}

/// The blocks from `line` on that are shown rendered.
pub open spec fn blocks_shown(p: Page, line: int) -> Seq<BlockKey>
    decreases p.total - line,
{
    if line >= p.total || line < 0 {
        Seq::empty()
    } else {
        match block_at(p.nodes, 0, line) {
            None => blocks_shown(p, line + 1),
            Some(i) => if p.block_end(i) < line {
                Seq::empty()
            } else if line <= p.at <= p.block_end(i) {
                blocks_shown(p, p.block_end(i) + 1)
            } else {
                seq![p.key(i)] + blocks_shown(p, p.block_end(i) + 1)
            },
        }
    }
}

/// How many of some blocks are not among others.
pub open spec fn not_among(blocks: Seq<BlockKey>, others: Seq<BlockKey>) -> nat
    decreases blocks.len(),
{
    if blocks.len() == 0 {
        0
    } else {
        not_among(blocks.skip(1), others) + if others.contains(blocks[0]) {
            0nat
        } else {
            1
        }
    }
}

proof fn lemma_not_among_fewer(blocks: Seq<BlockKey>, a: Seq<BlockKey>, b: Seq<BlockKey>)
    requires
        forall|k: BlockKey| #[trigger] a.contains(k) ==> b.contains(k),
    ensures
        not_among(blocks, b) <= not_among(blocks, a),
    decreases blocks.len(),
{
    if blocks.len() > 0 {
        lemma_not_among_fewer(blocks.skip(1), a, b);
    }
}

/// Showing a page renders at most the blocks that are not held, keeps those that are, and
/// holds what it shows.
proof fn lemma_remembered(p: Page, m: BlockMemory, line: int)
    ensures
        remembered(p, m, line).renders <= m.renders + not_among(blocks_shown(p, line), m.held),
        forall|k: BlockKey|
            m.held.contains(k) || blocks_shown(p, line).contains(k) ==> #[trigger] remembered(
                p,
                m,
                line,
            ).held.contains(k),
    decreases p.total - line,
{
    if line < p.total && line >= 0 {
        match block_at(p.nodes, 0, line) {
            None => lemma_remembered(p, m, line + 1),
            Some(i) => if p.block_end(i) >= line {
                let next = p.block_end(i) + 1;
                if line <= p.at <= p.block_end(i) {
                    lemma_remembered(p, m, next);
                } else {
                    let key = p.key(i);
                    let w = m.with_block(key);
                    lemma_remembered(p, w, next);
                    let rest = blocks_shown(p, next);
                    let all = blocks_shown(p, line);
                    assert(all.skip(1) =~= rest);
                    assert forall|k: BlockKey| #[trigger] m.held.contains(k) implies w.held.contains(
                        k,
                    ) by {
                        let x = choose|x: int| 0 <= x < m.held.len() && m.held[x] == k;
                        assert(w.held[x] == k);
                    }
                    assert(w.held.contains(key)) by {
                        if !m.held.contains(key) {
                            assert(w.held[m.held.len() as int] == key);
                        }
                    }
                    lemma_not_among_fewer(rest, m.held, w.held);
                    assert forall|k: BlockKey|
                        m.held.contains(k) || all.contains(k) implies #[trigger] remembered(
                        p,
                        m,
                        line,
                    ).held.contains(k) by {
                        if all.contains(k) && !m.held.contains(k) && k != key {
                            let x = choose|x: int| 0 <= x < all.len() && all[x] == k;
                            assert(rest[x - 1] == k);
                        }
                    }
                }
            },
        }
    }
}

/// From one page to the next only the blocks that were not shown rendered before are
/// rendered: those that an edit changed, and the one that the cursor left.
pub proof fn lemma_only_changed_blocks_are_rendered(m: BlockMemory, p: Page, q: Page)
    requires
        remembered(p, m, 0).held.len() <= BLOCK_CACHE_LIMIT,
    ensures
        ({
            let before = remembered(p, m, 0);
            remembered(q, before.turned(), 0).renders <= before.renders + not_among(
                blocks_shown(q, 0),
                blocks_shown(p, 0),
            )
        }),
{
    let before = remembered(p, m, 0);
    lemma_remembered(p, m, 0);
    lemma_remembered(q, before, 0);
    lemma_not_among_fewer(blocks_shown(q, 0), blocks_shown(p, 0), before.held);
}

/// Whether the line of the cursor is open as source in a view: it is one of the opened
/// lines, and the rows of these lines follow one another from the top row on.
pub open spec fn shows_the_cursor(p: Page, v: Live) -> bool {
    &&& 0 <= v.first <= p.at <= v.last < p.total
    &&& 0 <= v.top
    &&& v.top + first_row(p.counts, v.last + 1) - first_row(p.counts, v.first) <= v.rows.len()
    &&& forall|row: int|
        first_row(p.counts, v.first) <= row < first_row(p.counts, v.last + 1)
            ==> #[trigger] v.rows[v.top + row - first_row(p.counts, v.first)]
            == LiveRowView::Source(row)
}

proof fn lemma_first_row_grows(counts: Seq<usize>, a: int, z: int)
    requires
        0 <= a <= z,
    ensures
        0 <= first_row(counts, a) <= first_row(counts, z) <= total_of(counts),
{
    lemma_rows_before(counts, 0, a);
    if z < counts.len() {
        lemma_rows_before(counts, a, z);
        lemma_rows_before(counts, z, counts.len() as int);
    } else if a < counts.len() {
        lemma_rows_before(counts, a, counts.len() as int);
    } else {
        lemma_rows_before(counts, 0, counts.len() as int);
    }
}

pub proof fn lemma_open_shows(p: Page, v: Live, a: int, z: int)
    requires
        0 <= a <= p.at <= z < p.total,
    ensures
        shows_the_cursor(p, v.with_open(p.counts, a, z)),
{
    lemma_first_row_grows(p.counts, a, z + 1);
    let w = v.with_open(p.counts, a, z);
    assert forall|row: int|
        first_row(p.counts, a) <= row < first_row(p.counts, z + 1) implies #[trigger] w.rows[w.top
        + row - first_row(p.counts, a)] == LiveRowView::Source(row) by {
        let k = row - first_row(p.counts, a);
        assert(w.rows[v.rows.len() + k] == source_rows(p.counts, a, z)[k]);
    }
}

proof fn lemma_shown_keeps(p: Page, v: Live, rows: Seq<LiveRowView>)
    requires
        shows_the_cursor(p, v),
    ensures
        shows_the_cursor(p, Live { rows: v.rows + rows, ..v }),
{
    let w = Live { rows: v.rows + rows, ..v };
    assert forall|row: int|
        first_row(p.counts, v.first) <= row < first_row(p.counts, v.last + 1) implies #[trigger]
        w.rows[w.top + row - first_row(p.counts, w.first)] == LiveRowView::Source(row) by {
        assert(v.rows[v.top + row - first_row(p.counts, v.first)] == LiveRowView::Source(row));
    }
}

proof fn lemma_lines_show(p: Page, v: Live, line: int)
    requires
        0 <= line <= p.total,
        0 <= p.at < p.total,
        p.at < line ==> shows_the_cursor(p, v),
    ensures
        shows_the_cursor(p, v.with_lines(p, line)),
    decreases p.total - line,
{
    if line < p.total {
        match block_at(p.nodes, 0, line) {
            None => {
                if line == p.at {
                    lemma_open_shows(p, v, line, line);
                    lemma_lines_show(p, v.with_open(p.counts, line, line), line + 1);
                } else {
                    if p.at < line {
                        lemma_shown_keeps(p, v, source_rows(p.counts, line, line));
                    }
                    lemma_lines_show(p, v.with_source(p.counts, line, line), line + 1);
                }
            },
            Some(i) => {
                lemma_block_at(p.nodes, 0, line);
                let z = p.block_end(i);
                let w = v.with_block(p, i, line, z);
                if !(line <= p.at <= z) {
                    if p.at < line {
                        lemma_shown_keeps(p, v, shown_rows(p.shown(i), line));
                    }
                } else if p.opens(i) {
                    let s = p.around(i);
                    let before = v.with_shown(s.rows.take(s.at->0 as int), line);
                    lemma_open_shows(p, before, p.leaf(i).0 as int, p.leaf(i).1 as int);
                    let open = before.with_open(
                        p.counts,
                        p.leaf(i).0 as int,
                        p.leaf(i).1 as int,
                    );
                    lemma_shown_keeps(
                        p,
                        open,
                        shown_rows(s.rows.skip(s.at->0 + p.leaf_rows(i)), line),
                    );
                } else {
                    lemma_open_shows(p, v, line, z);
                }
                lemma_lines_show(p, w, z + 1);
            },
        }
    }
}

proof fn lemma_block_at(nodes: Seq<NodeView>, i: int, line: int)
    requires
        0 <= i,
    ensures
        match block_at(nodes, i, line) {
            Some(k) => i <= k < nodes.len() && nodes[k].depth == 2 && holds(
                range_of(nodes[k]),
                line,
            ),
            None => true,
        },
    decreases nodes.len() - i,
{
    if i < nodes.len() && !(nodes[i].depth == 2 && holds(range_of(nodes[i]), line)) {
        lemma_block_at(nodes, i + 1, line);
    }
}

/// The content under the cursor can always be edited: wherever the cursor is, its line is
/// shown as source, whatever else of the document is rendered.
pub proof fn lemma_the_cursor_is_on_source(p: Page)
    requires
        0 <= p.at < p.total,
    ensures
        shows_the_cursor(p, live_view(p)),
{
    reveal(live_view);
    lemma_lines_show(p, Live::nothing(), 0);
}

/// Whether a row of the source is one of a line.
pub open spec fn row_is_of(counts: Seq<usize>, row: int, line: int) -> bool {
    first_row(counts, line) <= row < first_row(counts, line + 1)
}

/// Whether every row of source in some rows is one of the lines `a` to `z`, or of a line
/// that belongs to no block.
pub open spec fn source_only_in(p: Page, rows: Seq<LiveRowView>, a: int, z: int) -> bool {
    forall|k: int|
        0 <= k < rows.len() && (#[trigger] rows[k]) is Source ==> exists|line: int|
            0 <= line < p.total && #[trigger] row_is_of(p.counts, rows[k]->Source_0, line) && (a
                <= line <= z || block_at(p.nodes, 0, line) is None)
}

proof fn lemma_line_of_row(counts: Seq<usize>, a: int, z: int, row: int) -> (line: int)
    requires
        0 <= a <= z,
        first_row(counts, a) <= row < first_row(counts, z + 1),
    ensures
        a <= line <= z,
        row_is_of(counts, row, line),
    decreases z - a,
{
    if row < first_row(counts, a + 1) {
        a
    } else {
        lemma_line_of_row(counts, a + 1, z, row)
    }
}

proof fn lemma_source_joins(
    p: Page,
    rows: Seq<LiveRowView>,
    a: int,
    z: int,
    from: int,
    to: int,
    x: int,
    y: int,
)
    requires
        source_only_in(p, rows, a, z),
        0 <= from <= to < p.total,
        (x <= from && to <= y) || (from == to && block_at(p.nodes, 0, from) is None),
        a > z || (x <= a && z <= y),
    ensures
        source_only_in(p, rows + source_rows(p.counts, from, to), x, y),
{
    let more = source_rows(p.counts, from, to);
    let all = rows + more;
    lemma_first_row_grows(p.counts, from, to + 1);
    assert forall|k: int| 0 <= k < all.len() && (#[trigger] all[k]) is Source implies exists|
        line: int,
    |
        0 <= line < p.total && #[trigger] row_is_of(p.counts, all[k]->Source_0, line) && (x <= line
            <= y || block_at(p.nodes, 0, line) is None) by {
        if k < rows.len() {
            assert(all[k] == rows[k]);
            let line = choose|line: int|
                0 <= line < p.total && #[trigger] row_is_of(p.counts, rows[k]->Source_0, line) && (a
                    <= line <= z || block_at(p.nodes, 0, line) is None);
            assert(row_is_of(p.counts, all[k]->Source_0, line));
        } else {
            assert(all[k] == more[k - rows.len()]);
            let line = lemma_line_of_row(p.counts, from, to, all[k]->Source_0);
            assert(row_is_of(p.counts, all[k]->Source_0, line));
        }
    }
}

proof fn lemma_shown_joins(p: Page, rows: Seq<LiveRowView>, a: int, z: int, more: Seq<RowView>, b: int)
    requires
        source_only_in(p, rows, a, z),
    ensures
        source_only_in(p, rows + shown_rows(more, b), a, z),
{
    let all = rows + shown_rows(more, b);
    assert forall|k: int| 0 <= k < all.len() && (#[trigger] all[k]) is Source implies exists|
        line: int,
    |
        0 <= line < p.total && #[trigger] row_is_of(p.counts, all[k]->Source_0, line) && (a <= line
            <= z || block_at(p.nodes, 0, line) is None) by {
        if k < rows.len() {
            assert(all[k] == rows[k]);
        } else {
            assert(all[k] == shown_rows(more, b)[k - rows.len()]);
        }
    }
}

proof fn lemma_lines_are_rendered(p: Page, v: Live, line: int)
    requires
        0 <= line <= p.total,
        0 <= p.at < p.total,
        p.at < line ==> source_only_in(p, v.rows, v.first, v.last),
        line <= p.at ==> source_only_in(p, v.rows, 1, 0),
    ensures
        ({
            let w = v.with_lines(p, line);
            source_only_in(p, w.rows, w.first, w.last)
        }),
    decreases p.total - line,
{
    if line < p.total {
        match block_at(p.nodes, 0, line) {
            None => {
                if line == p.at {
                    lemma_source_joins(p, v.rows, 1, 0, line, line, line, line);
                    lemma_lines_are_rendered(p, v.with_open(p.counts, line, line), line + 1);
                } else {
                    let (a, z) = if p.at < line {
                        (v.first, v.last)
                    } else {
                        (1int, 0int)
                    };
                    lemma_source_joins(p, v.rows, a, z, line, line, a, z);
                    lemma_lines_are_rendered(p, v.with_source(p.counts, line, line), line + 1);
                }
            },
            Some(i) => {
                lemma_block_at(p.nodes, 0, line);
                let end = p.block_end(i);
                let w = v.with_block(p, i, line, end);
                if !(line <= p.at <= end) {
                    let (a, z) = if p.at < line {
                        (v.first, v.last)
                    } else {
                        (1int, 0int)
                    };
                    lemma_shown_joins(p, v.rows, a, z, p.shown(i), line);
                } else if p.opens(i) {
                    let s = p.around(i);
                    let (a, z) = (p.leaf(i).0 as int, p.leaf(i).1 as int);
                    let before = v.with_shown(s.rows.take(s.at->0 as int), line);
                    lemma_shown_joins(p, v.rows, 1, 0, s.rows.take(s.at->0 as int), line);
                    lemma_source_joins(p, before.rows, 1, 0, a, z, a, z);
                    lemma_shown_joins(
                        p,
                        before.with_open(p.counts, a, z).rows,
                        a,
                        z,
                        s.rows.skip(s.at->0 + p.leaf_rows(i)),
                        line,
                    );
                } else {
                    lemma_source_joins(p, v.rows, 1, 0, line, end, line, end);
                }
                lemma_lines_are_rendered(p, w, end + 1);
            },
        }
    }
}

/// The document stays rendered while it is written: source is shown of the opened lines
/// alone, and of lines that belong to no block.
pub proof fn lemma_the_rest_is_rendered(p: Page)
    requires
        0 <= p.at < p.total,
    ensures
        source_only_in(p, live_view(p).rows, live_view(p).first, live_view(p).last),
{
    reveal(live_view);
    lemma_lines_are_rendered(p, Live::nothing(), 0);
}

/// The block that a line belongs to.
fn find_block(nodes: &Vec<Node>, line: usize) -> (at: Option<usize>)
    ensures
        match at {
            Some(i) => block_at(node_views(nodes@), 0, line as int) == Some(i as int) && i
                < nodes@.len() && holds(range_of(nodes@[i as int]@), line as int),
            None => block_at(node_views(nodes@), 0, line as int) is None,
        },
{
    let ghost v = node_views(nodes@);
    let mut i: usize = 0;
    while i < nodes.len()
        invariant
            i <= nodes@.len(),
            v == node_views(nodes@),
            block_at(v, i as int, line as int) == block_at(v, 0, line as int),
        decreases nodes@.len() - i,
    {
        let n = &nodes[i];
        assert(v[i as int] == nodes@[i as int]@);
        if n.depth == 2 && n.start_line.saturating_sub(1) <= line && line
            <= n.end_line.saturating_sub(1) {
            return Some(i);
        }
        i += 1;
    }
    None
}

/// The lines of the item that a line is in, or of the gap that it is in.
fn find_item(nodes: &Vec<Node>, depth: usize, from: usize, end: usize, line: usize) -> (r: Option<
    (usize, usize),
>)
    requires
        from <= end <= nodes@.len(),
    ensures
        r == item_at(node_views(nodes@), depth as int, from as int, end as int, None, line as int),
{
    let ghost v = node_views(nodes@);
    let mut j: usize = from;
    let mut before: Option<usize> = None;
    while j < end
        invariant
            from <= j <= end <= nodes@.len(),
            v == node_views(nodes@),
            item_at(v, depth as int, j as int, end as int, before, line as int) == item_at(
                v,
                depth as int,
                from as int,
                end as int,
                None,
                line as int,
            ),
        decreases end - j,
    {
        let n = &nodes[j];
        assert(v[j as int] == nodes@[j as int]@);
        if n.depth == depth {
            let first: usize = n.start_line.saturating_sub(1);
            let last: usize = n.end_line.saturating_sub(1);
            if first <= line && line <= last {
                return Some((first, last));
            }
            if let Some(e) = before {
                if e < line && line < first {
                    return Some((e + 1, first - 1));
                }
            }
            before = Some(last);
        }
        j += 1;
    }
    None
}

/// The lines that are opened in a block.
fn find_leaf(nodes: &Vec<Node>, i: usize, end: usize, line: usize) -> (r: (usize, usize))
    requires
        i < end <= nodes@.len(),
    ensures
        r == leaf_of(node_views(nodes@), i as int, end as int, line as int),
{
    let ghost v = node_views(nodes@);
    assert(v[i as int] == nodes@[i as int]@);
    let n = &nodes[i];
    let whole = (n.start_line.saturating_sub(1), n.end_line.saturating_sub(1));
    let is_list = match n.kind {
        NodeKind::List { .. } => true,
        _ => false,
    };
    if is_list {
        if n.depth == usize::MAX {
            proof {
                lemma_no_items(v, n.depth + 1, i + 1, end as int, None, line as int);
            }
            return whole;
        }
        match find_item(nodes, n.depth + 1, i + 1, end, line) {
            Some(r) => r,
            None => whole,
        }
    } else {
        whole
    }
}

proof fn lemma_no_items(
    nodes: Seq<NodeView>,
    depth: int,
    j: int,
    end: int,
    before: Option<usize>,
    line: int,
)
    requires
        depth > usize::MAX,
    ensures
        item_at(nodes, depth, j, end, before, line) is None,
    decreases end - j,
{
    if j < end {
        lemma_no_items(nodes, depth, j + 1, end, before, line);
    }
}

impl LiveView {
    /// Add lines of source.
    fn add_source(&mut self, layout: &Layout, a: usize, z: usize)
        requires
            layout.wf(),
            a <= z < usize::MAX,
        ensures
            final(self)@ == old(self)@.with_source(layout@.counts, a as int, z as int),
    {
        let from: usize = layout.first_row_of_line(a);
        let to: usize = layout.first_row_of_line(z + 1);
        proof {
            lemma_first_row_grows(layout@.counts, a as int, z + 1);
        }
        let ghost before = self@;
        let mut row: usize = from;
        assert(self@.rows =~= before.rows + Seq::new(
            0,
            |k: int| LiveRowView::Source(from + k),
        ));
        while row < to
            invariant
                from <= row <= to,
                self@.first == before.first,
                self@.last == before.last,
                self@.top == before.top,
                self@.rows == before.rows + Seq::new(
                    (row - from) as nat,
                    |k: int| LiveRowView::Source(from + k),
                ),
            decreases to - row,
        {
            let ghost prior = self@.rows;
            self.rows.push(LiveRow::Source(row));
            assert(self@.rows =~= prior.push(LiveRowView::Source(row as int)));
            row += 1;
            assert(self@.rows =~= before.rows + Seq::new(
                (row - from) as nat,
                |k: int| LiveRowView::Source(from + k),
            ));
        }
        assert(self@.rows =~= before.rows + source_rows(layout@.counts, a as int, z as int));
    }

    /// Add rendered rows of a block, from one to another.
    fn add_shown(&mut self, rows: &Vec<Row>, from: usize, to: usize, block: usize)
        requires
            from <= to <= rows@.len(),
        ensures
            final(self)@ == old(self)@.with_shown(
                row_views(rows@).subrange(from as int, to as int),
                block as int,
            ),
    {
        let ghost before = self@;
        let ghost v = row_views(rows@);
        let mut k: usize = from;
        while k < to
            invariant
                from <= k <= to <= rows@.len(),
                v == row_views(rows@),
                self@.first == before.first,
                self@.last == before.last,
                self@.top == before.top,
                self@.rows == before.rows + shown_rows(
                    v.subrange(from as int, k as int),
                    block as int,
                ),
            decreases to - k,
        {
            let ghost prior = self@.rows;
            let row = Row { line: rows[k].line.copy(), source: rows[k].source };
            assert(row@ == v[k as int]);
            self.rows.push(LiveRow::Shown { row, block });
            assert(self@.rows =~= prior.push(
                LiveRowView::Shown { row: v[k as int], block: block as int },
            ));
            k += 1;
            assert(self@.rows =~= before.rows + shown_rows(
                v.subrange(from as int, k as int),
                block as int,
            ));
        }
        assert(self@ =~= before.with_shown(v.subrange(from as int, to as int), block as int));
    }

    /// Add lines of source that the cursor is in.
    pub fn add_open(&mut self, layout: &Layout, a: usize, z: usize)
        requires
            layout.wf(),
            a <= z < usize::MAX,
        ensures
            final(self)@ == old(self)@.with_open(layout@.counts, a as int, z as int),
    {
        self.first = a;
        self.last = z;
        self.top = self.rows.len();
        self.add_source(layout, a, z);
    }
}

/// As many empty lines.
fn blanks(n: usize) -> (lines: Vec<Line>)
    ensures
        line_views(lines@) == blank_lines(n as int),
{
    let mut lines: Vec<Line> = Vec::new();
    let mut k: usize = 0;
    while k < n
        invariant
            k <= n,
            lines@.len() == k,
            forall|i: int| 0 <= i < k ==> (#[trigger] lines@[i])@ == Seq::<SpanView>::empty(),
        decreases n - k,
    {
        lines.push(Line::empty());
        k += 1;
    }
    assert(line_views(lines@) =~= blank_lines(n as int));
    lines
}

impl LiveView {
    /// Add the lines `a` to `z` of a block that the cursor is in.
    #[verifier::spinoff_prover]
    fn add_opened(
        &mut self,
        nodes: &Vec<Node>,
        i: usize,
        layout: &Layout,
        width: usize,
        theme: &MarkdownTheme,
        highlighter: &mut CodeHighlighter,
        at: usize,
        a: usize,
        z: usize,
    )
        requires
            layout.wf(),
            i < nodes@.len(),
            a <= at <= z < line_count(layout@.bytes()) <= usize::MAX,
            old(highlighter).wf(),
        ensures
            final(highlighter).wf(),
            final(highlighter).look() == old(highlighter).look(),
            ({
                let p = Page {
                    nodes: node_views(nodes@),
                    total: line_count(layout@.bytes()),
                    counts: layout@.counts,
                    width,
                    theme: *theme,
                    look: old(highlighter).look(),
                    at: at as int,
                };
                final(self)@ == old(self)@.with_block(p, i as int, a as int, z as int)
            }),
    {
        let ghost p = Page {
            nodes: node_views(nodes@),
            total: line_count(layout@.bytes()),
            counts: layout@.counts,
            width,
            theme: *theme,
            look: highlighter.look(),
            at: at as int,
        };
        let ghost before = self@;
        let total: usize = layout.line_total();
        let end: usize = node_end(nodes, i, nodes.len());
        let leaf = find_leaf(nodes, i, end, at);
        assert(leaf == p.leaf(i as int));
        if leaf.0 <= at && at <= leaf.1 && leaf.1 < total {
            let top: usize = layout.first_row_of_line(leaf.0);
            let bottom: usize = layout.first_row_of_line(leaf.1 + 1);
            proof {
                lemma_first_row_grows(layout@.counts, leaf.0 as int, leaf.1 + 1);
            }
            let n: usize = bottom - top;
            let mut active = ActiveLeaf::new(leaf, blanks(n));
            let (rows, landed) = render_block_with_hole(
                nodes,
                i,
                end,
                width,
                theme,
                highlighter,
                &mut active,
            );
            assert(row_views(rows@) == p.around(i as int).rows);
            assert(landed == p.around(i as int).at);
            let ghost v = row_views(rows@);
            assert(v.len() == rows@.len());
            if let Some(k) = landed {
                if k <= rows.len() && n <= rows.len() - k {
                    assert(p.opens(i as int));
                    self.add_shown(&rows, 0, k, a);
                    assert(v.subrange(0, k as int) =~= v.take(k as int));
                    self.add_open(layout, leaf.0, leaf.1);
                    self.add_shown(&rows, k + n, rows.len(), a);
                    assert(v.subrange(k + n, v.len() as int) =~= v.skip(k + n));
                    return;
                }
            }
        }
        assert(!p.opens(i as int));
        self.add_open(layout, a, z);
    }
}

impl Live {
    /// Where a row of the source is shown, if it is one of the opened lines.
    pub open spec fn screen_row(self, counts: Seq<usize>, row: int) -> int {
        let below = row - first_row(counts, self.first);
        least(
            self.top + if below < 0 {
                0
            } else {
                below
            },
            if self.rows.len() == 0 {
                0
            } else {
                self.rows.len() - 1
            },
        )
    }

    /// The nearest label at or above a row of a block.
    pub open spec fn label_above(self, k: int, block: int) -> Option<usize>
        decreases k + 1,
    {
        if k < 0 {
            None
        } else {
            match self.rows[k] {
                LiveRowView::Shown { row, block: b } => if b != block {
                    None
                } else if row.source is Some {
                    row.source
                } else {
                    self.label_above(k - 1, block)
                },
                LiveRowView::Source(_) => None,
            }
        }
    }

    /// The nearest label at or below a row of a block.
    pub open spec fn label_below(self, k: int, block: int) -> Option<usize>
        decreases self.rows.len() - k,
    {
        if k >= self.rows.len() {
            None
        } else {
            match self.rows[k] {
                LiveRowView::Shown { row, block: b } => if b != block {
                    None
                } else if row.source is Some {
                    row.source
                } else {
                    self.label_below(k + 1, block)
                },
                LiveRowView::Source(_) => None,
            }
        }
    }

    /// The line that a rendered row of a block stands for: its own, or that of the nearest
    /// row of the block that is known to begin one, or else the block's first.
    pub open spec fn line_shown(self, k: int, block: int) -> int {
        match self.label_above(k, block) {
            Some(n) => n.saturating_sub(1) as int,
            None => match self.label_below(k, block) {
                Some(n) => n.saturating_sub(1) as int,
                None => block,
            },
        }
    }
}

impl LiveView {
    /// Where a row of the source is shown, if it is one of the opened lines.
    pub fn screen_row(&self, layout: &Layout, row: usize) -> (k: usize)
        requires
            layout.wf(),
        ensures
            k == self@.screen_row(layout@.counts, row as int),
    {
        let from: usize = layout.first_row_of_line(self.first);
        let k: usize = self.top.saturating_add(row.saturating_sub(from));
        let end: usize = self.rows.len().saturating_sub(1);
        if k < end {
            k
        } else {
            end
        }
    }

    /// The line that a rendered row of a block stands for.
    pub fn line_of_row(&self, k: usize, block: usize) -> (line: usize)
        requires
            k < self.rows@.len(),
        ensures
            line == self@.line_shown(k as int, block as int),
    {
        let ghost v = self@;
        let ghost above = v.label_above(k as int, block as int);
        let count: usize = self.rows.len();
        assert(k < count);
        let mut n: usize = k + 1;
        let mut more = true;
        while more && n > 0
            invariant
                n <= self.rows@.len(),
                v == self@,
                above == v.label_above(k as int, block as int),
                more ==> above == v.label_above(n - 1, block as int),
                !more ==> above is None,
            decreases n, if more {
                1int
            } else {
                0int
            },
        {
            assert(v.rows[n - 1] == self.rows@[n - 1]@);
            match &self.rows[n - 1] {
                LiveRow::Shown { row, block: b } => {
                    if *b != block {
                        more = false;
                    } else {
                        match row.source {
                            Some(label) => {
                                return label.saturating_sub(1);
                            },
                            None => {
                                n -= 1;
                            },
                        }
                    }
                },
                LiveRow::Source(_) => {
                    more = false;
                },
            }
        }
        assert(above is None);
        let mut j: usize = k;
        let mut on = true;
        while on && j < self.rows.len()
            invariant
                j <= self.rows@.len(),
                v == self@,
                above is None,
                above == v.label_above(k as int, block as int),
                on ==> v.label_below(k as int, block as int) == v.label_below(j as int, block as int),
                !on ==> v.label_below(k as int, block as int) is None,
            decreases self.rows@.len() - j, if on {
                1int
            } else {
                0int
            },
        {
            assert(v.rows[j as int] == self.rows@[j as int]@);
            match &self.rows[j] {
                LiveRow::Shown { row, block: b } => {
                    if *b != block {
                        on = false;
                    } else {
                        match row.source {
                            Some(label) => {
                                return label.saturating_sub(1);
                            },
                            None => {
                                j += 1;
                            },
                        }
                    }
                },
                LiveRow::Source(_) => {
                    on = false;
                },
            }
        }
        block
    }
}

/// The live view of a document whose nodes and layout are given, with the cursor on line
/// `at`.
#[verifier::spinoff_prover]
pub fn build_live_view(
    nodes: &Vec<Node>,
    layout: &Layout,
    width: usize,
    theme: &MarkdownTheme,
    highlighter: &mut CodeHighlighter,
    at: usize,
) -> (view: LiveView)
    requires
        layout.wf(),
        at < line_count(layout@.bytes()),
        old(highlighter).wf(),
    ensures
        final(highlighter).wf(),
        final(highlighter).look() == old(highlighter).look(),
        ({
            let p = Page {
                nodes: node_views(nodes@),
                total: line_count(layout@.bytes()),
                counts: layout@.counts,
                width,
                theme: *theme,
                look: old(highlighter).look(),
                at: at as int,
            };
            &&& view@ == live_view(p)
            &&& final(highlighter).memory() == remembered(p, old(highlighter).memory().turned(), 0)
        }),
{
    let ghost p = Page {
        nodes: node_views(nodes@),
        total: line_count(layout@.bytes()),
        counts: layout@.counts,
        width,
        theme: *theme,
        look: highlighter.look(),
        at: at as int,
    };
    let total: usize = layout.line_total();
    let mut blocks = highlighter.take_blocks();
    blocks.turn(Ghost(p.look));
    let ghost held = remembered(p, blocks@, 0);
    let mut view = LiveView { rows: Vec::new(), first: 0, last: 0, top: 0 };
    assert(view@ =~= Live::nothing());
    let ghost whole = view@.with_lines(p, 0);
    let mut line: usize = 0;
    while line < total
        invariant
            line <= total,
            layout.wf(),
            total == line_count(layout@.bytes()),
            highlighter.wf(),
            at < total,
            p == (Page {
                nodes: node_views(nodes@),
                total: line_count(layout@.bytes()),
                counts: layout@.counts,
                width,
                theme: *theme,
                look: highlighter.look(),
                at: at as int,
            }),
            view@.with_lines(p, line as int) == whole,
            blocks.wf(p.look),
            remembered(p, blocks@, line as int) == held,
        decreases total - line,
    {
        match find_block(nodes, line) {
            None => {
                if line == at {
                    view.add_open(layout, line, line);
                } else {
                    view.add_source(layout, line, line);
                }
                line += 1;
            },
            Some(i) => {
                let last: usize = nodes[i].end_line.saturating_sub(1);
                assert(p.nodes[i as int] == nodes@[i as int]@);
                let z: usize = if last < total - 1 {
                    last
                } else {
                    total - 1
                };
                assert(z == p.block_end(i as int));
                if line <= at && at <= z {
                    view.add_opened(nodes, i, layout, width, theme, highlighter, at, line, z);
                } else {
                    let end: usize = node_end(nodes, i, nodes.len());
                    let k: usize = blocks.place(nodes, i, end, width, theme, highlighter);
                    let rows = blocks.rows(k);
                    let ghost v = row_views(rows@);
                    assert(v == p.shown(i as int));
                    view.add_shown(rows, 0, rows.len(), line);
                    assert(v.subrange(0, v.len() as int) =~= v);
                }
                line = z + 1;
            },
        }
    }
    highlighter.put_blocks(blocks);
    proof {
        reveal(live_view);
    }
    view
}

/// Of a list, the item that the cursor is in is opened, and no other.
pub proof fn lemma_the_item_is_opened(
    nodes: Seq<NodeView>,
    depth: int,
    j: int,
    end: int,
    before: Option<usize>,
    line: int,
    k: int,
)
    requires
        j <= k < end,
        nodes[k].depth == depth,
        range_of(nodes[k]).0 <= line <= range_of(nodes[k]).1,
        forall|i: int|
            j <= i < k && (#[trigger] nodes[i]).depth == depth ==> range_of(nodes[i]).0 <= range_of(
                nodes[i],
            ).1 < line,
    ensures
        item_at(nodes, depth, j, end, before, line) == Some(range_of(nodes[k])),
    decreases k - j,
{
    if j < k {
        let next = if nodes[j].depth == depth {
            Some(range_of(nodes[j]).1)
        } else {
            before
        };
        lemma_the_item_is_opened(nodes, depth, j + 1, end, next, line, k);
    }
}

/// Of a document, the block that the cursor is in is opened: the first that has its line.
pub proof fn lemma_the_block_is_found(nodes: Seq<NodeView>, i: int, line: int, k: int)
    requires
        i <= k < nodes.len(),
        nodes[k].depth == 2,
        range_of(nodes[k]).0 <= line <= range_of(nodes[k]).1,
        forall|j: int|
            i <= j < k && (#[trigger] nodes[j]).depth == 2 ==> line < range_of(nodes[j]).0 || line
                > range_of(nodes[j]).1,
    ensures
        block_at(nodes, i, line) == Some(k),
    decreases k - i,
{
    if i < k {
        lemma_the_block_is_found(nodes, i + 1, line, k);
    }
}

} // verus!
