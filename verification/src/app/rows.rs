//! The rows of a page as they are drawn: highlighted source with the selection, rendered
//! rows, and the line numbers beside them.

use vstd::prelude::*;
use vstd::utf8::*;

use crate::app::{App, AppView, Mode};
use crate::bytes::{boundary, slice, text_between};
use crate::color::Color;
use crate::layout::{
    cell_link, cells_whole, line_content, row_is_filled, row_whole, rows_before, total_of, Cell,
    DisplayLine, LayoutView, RowView,
};
use crate::line_index::{fence_before, least};
use crate::live::{Live, LiveRow, LiveRowView, LiveView};
use crate::markdown::theme::MarkdownTheme;
use crate::markdown::tokenizer::{highlight_from, highlighted};
use crate::rope::{line_bytes, line_count, line_start};
use crate::strings::{repeat_char, repeated, same};
use crate::style::{shown, Line, Span, SpanView, Style};

verus! {

/// Rows as they are drawn, and the line numbers beside them.
pub struct Assembled {
    pub lines: Vec<Line>,
    pub numbers: Vec<Option<usize>>,
}

/// The text that a cell shows: a tab is as many spaces as it is wide.
pub open spec fn cell_text(content: Seq<char>, c: Cell) -> Seq<char> {
    let t = text_between(encode_utf8(content), c.byte as int, c.byte + c.len);
    if t == "\t"@ {
        repeated(' ', c.width as int)
    } else {
        t
    }
}

/// Whether a byte is selected.
pub open spec fn is_selected(selection: Option<(usize, usize)>, byte: int) -> bool {
    match selection {
        Some((s, e)) => s <= byte < e,
        None => false,
    }
}

/// How a cell is drawn: in the style of its first byte, on another ground where it is
/// selected.
pub open spec fn cell_span(
    content: Seq<char>,
    c: Cell,
    styles: Seq<Style>,
    begin: int,
    selection: Option<(usize, usize)>,
    theme: MarkdownTheme,
) -> SpanView {
    let style = if c.byte < styles.len() {
        styles[c.byte as int]
    } else {
        theme.text
    };
    shown(
        cell_text(content, c),
        if is_selected(selection, begin + c.byte) {
            style.with_bg(theme.selection)
        } else {
            style
        },
    )
}

/// Whether a selection touches a line.
pub open spec fn touches(b: Seq<u8>, selection: Option<(usize, usize)>, line: int) -> bool {
    match selection {
        Some((s, e)) => s < line_start(b, line + 1) && line_start(b, line) < e,
        None => false,
    }
}

/// A line on another ground.
pub open spec fn on_ground(line: Seq<SpanView>, ground: Color) -> Seq<SpanView> {
    line.map_values(|s: SpanView| shown(s.text, s.style.with_bg(ground)))
}

/// A line on another ground.
fn draw_on(line: &Line, ground: Color) -> (out: Line)
    ensures
        out@ == on_ground(line@, ground),
{
    let ghost v = line@;
    let mut spans: Vec<Span> = Vec::new();
    let mut k: usize = 0;
    while k < line.spans.len()
        invariant
            k <= line.spans@.len(),
            v == line@,
            spans@.len() == k,
            forall|i: int|
                0 <= i < k ==> (#[trigger] spans@[i])@ == shown(
                    v[i].text,
                    v[i].style.with_bg(ground),
                ),
        decreases line.spans@.len() - k,
    {
        let span = &line.spans[k];
        assert(v[k as int] == span@);
        spans.push(Span::styled(span.text.clone(), span.style.bg(ground)));
        k += 1;
    }
    let out = Line { spans };
    assert(out@ =~= on_ground(v, ground));
    out
}

impl LayoutView {
    /// The line that a row shows a part of.
    pub open spec fn shown_line(self, row: int) -> int {
        let at = least(row, total_of(self.counts) - 1);
        least(self.line_of_row(at), line_count(self.bytes()) - 1)
    }

    /// What a row shows.
    pub open spec fn shown_row(self, row: int) -> RowView {
        let at = least(row, total_of(self.counts) - 1);
        let rows = self.rows(self.shown_line(row));
        rows[least(at - rows_before(self.counts, self.line_of_row(at)), rows.len() - 1)]
    }
}

impl AppView {
    /// A row of the editing view as it is drawn.
    pub open spec fn drawn_row(self, row: int) -> Seq<SpanView> {
        let l = self.editor.layout();
        let b = self.editor.bytes();
        let line = l.shown_line(row);
        let r = l.shown_row(row);
        let styles = highlighted(line_bytes(b, line), fence_before(b, line), self.theme);
        Seq::new(
            r.cells.len(),
            |k: int|
                cell_span(
                    line_content(line_bytes(b, line)),
                    r.cells[k],
                    styles,
                    line_start(b, line),
                    self.editor.selection(),
                    self.theme,
                ),
        )
    }

    /// The line number beside a row: that of its line, beside the first row of the line.
    pub open spec fn row_number(self, row: int) -> Option<usize> {
        let l = self.editor.layout();
        if l.shown_row(row).byte_start == 0 {
            Some((l.shown_line(row) + 1) as usize)
        } else {
            None
        }
    }

    /// The line that a rendered row of a page stands for.
    pub open spec fn page_row_line(self, page: Live, k: int, block: int) -> int {
        least(page.line_shown(k, block), line_count(self.editor.bytes()) - 1)
    }

    /// A row of a page as it is drawn: a rendered row is drawn on another ground where the
    /// selection touches the line that it stands for.
    pub open spec fn page_line(self, page: Live, k: int) -> Seq<SpanView> {
        match page.rows[k] {
            LiveRowView::Source(row) => self.drawn_row(row),
            LiveRowView::Shown { row, block } => if self.desk.mode != Mode::Read && touches(
                self.editor.bytes(),
                self.editor.selection(),
                self.page_row_line(page, k, block),
            ) {
                on_ground(row.line, self.theme.selection)
            } else {
                row.line
            },
        }
    }

    /// The line number beside a row of a page.
    pub open spec fn page_number(self, row: LiveRowView) -> Option<usize> {
        match row {
            LiveRowView::Source(k) => self.row_number(k),
            LiveRowView::Shown { row, .. } => row.source,
        }
    }
}

/// How many rows of a page are drawn from a row on, of those that fit.
pub open spec fn drawn_count(total: int, start: int, count: int) -> int {
    if start >= total {
        0
    } else {
        least(count, total - start)
    }
}

/// Draw the cells of a row.
#[verifier::spinoff_prover]
fn draw_cells(
    row: &DisplayLine,
    content: &str,
    styles: &Vec<Style>,
    begin: usize,
    selection: Option<(usize, usize)>,
    theme: &MarkdownTheme,
) -> (line: Line)
    requires
        row_is_filled(row@),
        row_whole(encode_utf8(content@), row@),
    ensures
        line@ == Seq::new(
            row@.cells.len(),
            |k: int|
                cell_span(content@, row@.cells[k], styles@, begin as int, selection, *theme),
        ),
{
    let ghost b = encode_utf8(content@);
    let mut spans: Vec<Span> = Vec::new();
    let mut k: usize = 0;
    while k < row.cells.len()
        invariant
            k <= row.cells@.len(),
            b == encode_utf8(content@),
            row_is_filled(row@),
            row_whole(b, row@),
            spans@.len() == k,
            forall|i: int|
                0 <= i < k ==> (#[trigger] spans@[i])@ == cell_span(
                    content@,
                    row.cells@[i],
                    styles@,
                    begin as int,
                    selection,
                    *theme,
                ),
        decreases row.cells@.len() - k,
    {
        let c: Cell = row.cells[k];
        proof {
            assert(cell_link(row@.cells, row@.byte_end, row@.width, k as int));
            assert(cells_whole(b, row@.cells));
            assert(boundary(b, row@.cells[k as int].byte as int));
            if k + 1 < row@.cells.len() {
                assert(boundary(b, row@.cells[k + 1].byte as int));
            }
            assert(boundary(b, c.byte + c.len));
        }
        let stop: usize = c.byte + c.len;
        let piece = slice(content, c.byte, stop);
        let text = if same(piece, "\t") {
            repeat_char(' ', c.width as usize)
        } else {
            piece.to_owned()
        };
        let style = if c.byte < styles.len() {
            styles[c.byte]
        } else {
            theme.text
        };
        let selected = match selection {
            Some((s, e)) => {
                // The byte may lie past what a place can be; then it is past the selection.
                match begin.checked_add(c.byte) {
                    Some(at) => s <= at && at < e,
                    None => false,
                }
            },
            None => false,
        };
        let look = if selected {
            style.bg(theme.selection)
        } else {
            style
        };
        spans.push(Span::styled(text, look));
        k += 1;
    }
    let line = Line { spans };
    assert(line@ =~= Seq::new(
        row@.cells.len(),
        |k: int| cell_span(content@, row@.cells[k], styles@, begin as int, selection, *theme),
    ));
    line
}

impl App {
    /// What a row of the editing view shows.
    #[verifier::spinoff_prover]
    fn display_row(&mut self, row: usize) -> (r: DisplayLine)
        requires
            old(self).wf(),
        ensures
            final(self).wf(),
            final(self)@ == old(self)@,
            r@ == old(self)@.editor.layout().shown_row(row as int),
            r.line == old(self)@.editor.layout().shown_line(row as int),
            r.line < line_count(old(self)@.editor.bytes()),
            row_is_filled(r@),
            row_whole(
                encode_utf8(line_content(line_bytes(old(self)@.editor.bytes(), r.line as int))),
                r@,
            ),
    {
        proof {
            reveal(App::seen);
            reveal(App::wf);
        }
        self.editor.display_row(row)
    }

    /// The source of a line: its content, its styles and where it begins.
    #[verifier::spinoff_prover]
    fn line_source(&self, line: usize) -> (r: (String, Vec<Style>, usize))
        requires
            self.wf(),
            line < line_count(self@.editor.bytes()),
        ensures
            r.0@ == line_content(line_bytes(self@.editor.bytes(), line as int)),
            r.1@ == highlighted(
                line_bytes(self@.editor.bytes(), line as int),
                fence_before(self@.editor.bytes(), line as int),
                self@.theme,
            ),
            r.2 == line_start(self@.editor.bytes(), line as int),
    {
        proof {
            reveal(App::seen);
            reveal(App::wf);
        }
        let content = self.editor.line_without_eol(line);
        let source = self.editor.line_text(line);
        let fence = self.editor.line_index().fence_at(line);
        assert(fence == fence_before(self@.editor.bytes(), line as int));
        let styles = highlight_from(source.as_str(), fence, &self.theme);
        (content, styles, self.editor.line_begin(line))
    }

    /// Draw a row of the editing view, and the line number beside it.
    #[verifier::spinoff_prover]
    fn draw_row(&mut self, row: usize) -> (r: (Line, Option<usize>))
        requires
            old(self).wf(),
        ensures
            final(self).wf(),
            final(self)@ == old(self)@,
            r.0@ == old(self)@.drawn_row(row as int),
            r.1 == old(self)@.row_number(row as int),
    {
        let display = self.display_row(row);
        let (content, styles, begin) = self.line_source(display.line);
        let selection = self.selection_range();
        let line = draw_cells(
            &display,
            content.as_str(),
            &styles,
            begin,
            selection,
            self.theme(),
        );
        let count: usize = self.line_total();
        assert(display.line < count);
        let number: Option<usize> = if display.byte_start == 0 {
            Some(display.line + 1)
        } else {
            None
        };
        (line, number)
    }

    /// Draw a row of a page, and the line number beside it.
    #[verifier::spinoff_prover]
    fn draw_page_row(&mut self, view: &LiveView, k: usize) -> (r: (Line, Option<usize>))
        requires
            old(self).wf(),
            k < view.rows@.len(),
        ensures
            final(self).wf(),
            final(self)@ == old(self)@,
            r.0@ == old(self)@.page_line(view@, k as int),
            r.1 == old(self)@.page_number(view@.rows[k as int]),
    {
        assert(view@.rows[k as int] == view.rows@[k as int]@);
        match &view.rows[k] {
            LiveRow::Source(row) => self.draw_row(*row),
            LiveRow::Shown { row, block } => {
                let line: usize = view.line_of_row(k, *block);
                if !self.desk().mode.is_read() && self.is_touched(line) {
                    (draw_on(&row.line, self.theme().selection), row.source)
                } else {
                    (row.line.copy(), row.source)
                }
            },
        }
    }

    /// Whether the selection touches a line, or the last where there are not so many.
    #[verifier::spinoff_prover]
    fn is_touched(&self, line: usize) -> (yes: bool)
        requires
            self.wf(),
        ensures
            yes == touches(
                self@.editor.bytes(),
                self@.editor.selection(),
                least(line as int, line_count(self@.editor.bytes()) - 1),
            ),
    {
        let total: usize = self.line_total();
        let own: usize = self.cursor_line();
        assert(own < total);
        let at: usize = if line < total - 1 {
            line
        } else {
            total - 1
        };
        match self.selection_range() {
            Some((s, e)) => {
                let (from, to) = self.bytes_of_line(at);
                s < to && from < e
            },
            None => false,
        }
    }

    /// The bytes of a line.
    #[verifier::spinoff_prover]
    fn bytes_of_line(&self, line: usize) -> (range: (usize, usize))
        requires
            self.wf(),
            line < line_count(self@.editor.bytes()),
        ensures
            range.0 == line_start(self@.editor.bytes(), line as int),
            range.1 == line_start(self@.editor.bytes(), line + 1),
    {
        proof {
            reveal(App::seen);
            reveal(App::wf);
        }
        self.editor.line_range(line)
    }

    /// Draw rows of a page, and the line numbers beside them.
    #[verifier::spinoff_prover]
    pub fn assemble_rows(&mut self, view: &LiveView, start: usize, count: usize) -> (out: Assembled)
        requires
            old(self).wf(),
        ensures
            final(self).wf(),
            final(self)@ == old(self)@,
            out.lines@.len() == drawn_count(view@.rows.len() as int, start as int, count as int),
            out.numbers@.len() == out.lines@.len(),
            forall|k: int|
                0 <= k < out.lines@.len() ==> (#[trigger] out.lines@[k])@ == old(self)@.page_line(
                    view@,
                    start + k,
                ),
            forall|k: int|
                0 <= k < out.numbers@.len() ==> #[trigger] out.numbers@[k]
                    == old(self)@.page_number(view@.rows[start + k]),
    {
        let total: usize = view.rows.len();
        let n: usize = if start >= total {
            0
        } else if count < total - start {
            count
        } else {
            total - start
        };
        let ghost v = self@;
        let mut lines: Vec<Line> = Vec::new();
        let mut numbers: Vec<Option<usize>> = Vec::new();
        let mut k: usize = 0;
        while k < n
            invariant
                k <= n,
                self.wf(),
                self@ == v,
                total == view.rows@.len(),
                start < total || n == 0,
                n > 0 ==> n <= total - start,
                lines@.len() == k,
                numbers@.len() == k,
                forall|i: int|
                    0 <= i < k ==> (#[trigger] lines@[i])@ == v.page_line(view@, start + i),
                forall|i: int|
                    0 <= i < k ==> #[trigger] numbers@[i] == v.page_number(view@.rows[start + i]),
            decreases n - k,
        {
            let (line, number) = self.draw_page_row(view, start + k);
            lines.push(line);
            numbers.push(number);
            k += 1;
        }
        Assembled { lines, numbers }
    }

    /// Draw the rows of a page that are in the viewport.
    #[verifier::spinoff_prover]
    pub fn visible_rows(&mut self, view: &LiveView) -> (out: Assembled)
        requires
            old(self).wf(),
        ensures
            final(self).wf(),
            final(self)@ == old(self)@,
            out.lines@.len() == drawn_count(
                view@.rows.len() as int,
                old(self)@.desk.scroll_y as int,
                old(self)@.desk.height(),
            ),
            out.numbers@.len() == out.lines@.len(),
            forall|k: int|
                0 <= k < out.lines@.len() ==> (#[trigger] out.lines@[k])@ == old(self)@.page_line(
                    view@,
                    old(self)@.desk.scroll_y + k,
                ),
            forall|k: int|
                0 <= k < out.numbers@.len() ==> #[trigger] out.numbers@[k]
                    == old(self)@.page_number(view@.rows[old(self)@.desk.scroll_y + k]),
    {
        let desk = self.desk();
        self.assemble_rows(view, desk.scroll_y, desk.shown_rows())
    }
}

/// A cell of a row is drawn as it reads, on the ground of the selection where it is selected
/// and as the source is styled where it is not.
pub proof fn lemma_selected_cells_stand_out(v: AppView, row: int, k: int, s: usize, e: usize)
    requires
        0 <= k < v.editor.layout().shown_row(row).cells.len(),
        v.editor.selection() == Some((s, e)),
    ensures
        ({
            let l = v.editor.layout();
            let b = v.editor.bytes();
            let line = l.shown_line(row);
            let c = l.shown_row(row).cells[k];
            let styles = highlighted(line_bytes(b, line), fence_before(b, line), v.theme);
            let style = if c.byte < styles.len() {
                styles[c.byte as int]
            } else {
                v.theme.text
            };
            let drawn = v.drawn_row(row)[k];
            let at = line_start(b, line) + c.byte;
            &&& drawn.text == cell_text(line_content(line_bytes(b, line)), c)
            &&& s <= at < e ==> drawn.style == style.with_bg(v.theme.selection)
            &&& at < s || at >= e ==> drawn.style == style
        }),
{
}

/// The first row of a line has the number of the line, counted from one, beside it, and the
/// others have none.
pub proof fn lemma_first_rows_are_numbered(v: AppView, row: int)
    requires
        0 <= v.editor.layout().shown_line(row) < usize::MAX,
    ensures
        v.editor.layout().shown_row(row).byte_start == 0 ==> v.row_number(row) is Some
            && v.row_number(row)->0 == v.editor.layout().shown_line(row) + 1,
        v.editor.layout().shown_row(row).byte_start != 0 ==> v.row_number(row) is None,
{
}

} // verus!
