//! Editing tables: formatting, moving between cells, and adding, deleting and moving rows.

use vstd::prelude::*;
use vstd::utf8::*;

use crate::bytes::{boundary, lemma_boundary_ends, lemma_valid_between};
use crate::cells::{
    all_dashes, are_dashes, bound_places, cell_bounds, lemma_cells_follow, row_of, table_cell_bounds, ParsedRow,
    ParsedRowView,
};
use crate::editor::{Editor, EditorView};
use crate::layout::lemma_line_end_boundary;
use crate::line_index::{least, most};
use crate::list_marker::{indentation, leading_indent};
use crate::markdown::tokenizer::content_end;
use crate::rope::{
    lemma_line_of, lemma_line_start_boundary, lemma_line_starts_grow, line_bytes, line_count,
    line_start,
};
use crate::strings::{
    ascii_space, byte_len, byte_length, contains_char, from_chars, has_char, is_ascii_space, joined,
    lemma_cut_bytes, opt_str, to_chars, trim, trimmed, views,
};
use crate::text::{columns, width};

verus! {

/// Where the table at the cursor stands, and how many columns its widest row has.
#[derive(Clone, Copy, Debug, PartialEq, Eq, Structural)]
pub struct TableInfo {
    pub start_line: usize,
    pub separator_line: usize,
    pub end_line: usize,
    pub columns: usize,
}

/// The widest of a text's columns and a width.
pub open spec fn wider(a: usize, b: usize) -> usize {
    if a > b {
        a
    } else {
        b
    }
}

/// An empty row with the indentation and the outer pipes of a sample.
pub open spec fn empty_row(sample: Seq<char>, count: int) -> Seq<char> {
    let t = trimmed(sample);
    let leading = t.len() > 0 && t[0] == '|';
    let trailing = t.len() > 0 && t.last() == '|';
    empty_cells(
        if leading {
            indentation(sample).push('|')
        } else {
            indentation(sample)
        },
        trailing,
        count,
        count,
    )
}

/// A row begun with `head`, and `n` of its `count` empty cells.
pub open spec fn empty_cells(head: Seq<char>, trailing: bool, count: int, n: int) -> Seq<char>
    decreases n,
{
    if n <= 0 {
        head
    } else {
        let text = empty_cells(head, trailing, count, n - 1).push(' ').push(' ');
        if n < count || trailing {
            text.push('|')
        } else {
            text
        }
    }
}

impl EditorView {
    /// Whether a line looks like part of a table.
    pub open spec fn table_like(self, line: int) -> bool {
        has_char(self.content(line), '|') && trimmed(self.content(line)).len() > 0
    }

    /// The row on a line.
    pub open spec fn row(self, line: int) -> ParsedRowView {
        row_of(self.content(line), self.ending(line))
    }

    /// The cells on a line; none where it does not look like part of a table.
    pub open spec fn line_cells(self, line: int) -> Seq<Seq<char>> {
        if self.table_like(line) {
            self.row(line).cells
        } else {
            Seq::empty()
        }
    }

    /// Whether a line separates the header of a table from its rows.
    pub open spec fn separates(self, line: int) -> bool {
        self.line_cells(line).len() > 0 && all_dashes(self.line_cells(line), 1)
    }

    /// The first of the lines before a line that look like part of a table with it.
    pub open spec fn table_top(self, line: int) -> int
        decreases line,
    {
        if line > 0 && self.table_like(line - 1) {
            self.table_top(line - 1)
        } else {
            line
        }
    }

    /// The last of the lines after a line that look like part of a table with it.
    pub open spec fn table_bottom(self, line: int) -> int
        decreases line_count(self.bytes()) - line,
    {
        if line + 1 < line_count(self.bytes()) && self.table_like(line + 1) {
            self.table_bottom(line + 1)
        } else {
            line
        }
    }

    /// The first line from `line` to `last` that separates a header from its rows.
    pub open spec fn separator_from(self, line: int, last: int) -> Option<int>
        decreases last + 1 - line,
    {
        if line > last {
            None
        } else if self.separates(line) {
            Some(line)
        } else {
            self.separator_from(line + 1, last)
        }
    }

    /// The greatest number of cells on the lines `[first, line)`.
    pub open spec fn most_cells(self, first: int, line: int) -> int
        decreases line - first,
    {
        if line <= first {
            0
        } else {
            most(self.most_cells(first, line - 1), self.line_cells(line - 1).len() as int)
        }
    }

    /// The table that the cursor is in: lines with pipes, one of which, after the first,
    /// separates the header. A pipe inside a fenced code block makes no table.
    #[verifier::opaque]
    pub open spec fn table(self) -> Option<TableInfo> {
        let line = self.cursor_line();
        let first = self.table_top(line);
        let last = self.table_bottom(line);
        match self.separator_from(first + 1, last) {
            Some(separator) if self.table_like(line) && !self.in_fenced_code(line) => Some(
                TableInfo {
                    start_line: first as usize,
                    separator_line: separator as usize,
                    end_line: last as usize,
                    columns: self.most_cells(first, last + 1) as usize,
                },
            ),
            _ => None,
        }
    }

    /// The width of a column among the rows on the lines `[first, line)`, the separator
    /// left out: at least three.
    pub open spec fn column_width(
        self,
        first: int,
        line: int,
        separator: int,
        column: int,
    ) -> usize
        decreases line - first,
    {
        if line <= first {
            3
        } else {
            let before = self.column_width(first, line - 1, separator, column);
            let cells = self.row(line - 1).cells;
            if line - 1 != separator && column < cells.len() {
                wider(before, columns(cells[column]))
            } else {
                before
            }
        }
    }

    /// The widths of the columns of a table.
    pub open spec fn column_widths(self, info: TableInfo) -> Seq<usize> {
        Seq::new(
            info.columns as nat,
            |c: int|
                self.column_width(
                    info.start_line as int,
                    info.end_line + 1,
                    info.separator_line as int,
                    c,
                ),
        )
    }

    /// The rows on the lines `[start, line)` of a table, laid out.
    pub open spec fn formatted_rows(self, info: TableInfo, line: int) -> Seq<char>
        decreases line - info.start_line,
    {
        if line <= info.start_line {
            Seq::empty()
        } else {
            self.formatted_rows(info, line - 1) + self.row(line - 1).formatted(
                self.column_widths(info),
                line - 1 == info.separator_line,
            )
        }
    }

    /// The editor with the table at the cursor laid out, and what to say of it.
    #[verifier::opaque]
    pub open spec fn table_formatted(self) -> (EditorView, Option<Seq<char>>) {
        match self.table() {
            None => (self, Some("No table at cursor"@)),
            Some(info) => {
                let start = line_start(self.bytes(), info.start_line as int);
                let end = line_start(self.bytes(), info.end_line + 1);
                let text = self.formatted_rows(info, info.end_line + 1);
                let col = least(self.cursor.byte - start, byte_len(text) as int);
                (
                    self.run_ended().replaced(
                        start,
                        end,
                        text,
                        Some((start as usize).saturating_add(col as usize)),
                    ).run_ended(),
                    Some("Table formatted"@),
                )
            },
        }
    }

    /// The byte in a line at which its `k`-th character stands.
    pub open spec fn line_byte(self, line: int, k: int) -> int {
        line_start(self.bytes(), line) + byte_len(self.content(line).take(k))
    }

    /// The first of the cells from `k` on that the cursor touches, or the last cell.
    pub open spec fn cell_touched(self, line: int, k: int) -> int
        decreases cell_bounds(self.content(line)).len() - k,
    {
        let bounds = cell_bounds(self.content(line));
        if k < 0 || k >= bounds.len() {
            if bounds.len() == 0 {
                0
            } else {
                bounds.len() - 1
            }
        } else if self.line_byte(line, bounds[k].0) <= self.cursor.byte <= self.line_byte(
            line,
            bounds[k].1,
        ) {
            k
        } else {
            self.cell_touched(line, k + 1)
        }
    }

    /// The number of cells to stop at on a line, at least one.
    pub open spec fn stops(self, line: int) -> int {
        most(cell_bounds(self.content(line)).len() as int, 1)
    }

    /// The cell after (or before) a cell, on the separator line too.
    pub open spec fn next_cell(self, info: TableInfo, line: int, cell: int, forward: bool) -> (
        int,
        int,
    ) {
        let first = info.start_line as int;
        let last = info.end_line as int;
        let separator = info.separator_line as int;
        if forward {
            if cell + 1 < self.stops(line) {
                (line, cell + 1)
            } else {
                let next = if line >= last {
                    first
                } else {
                    line + 1
                };
                (
                    if next == separator {
                        least(next + 1, last)
                    } else {
                        next
                    },
                    0,
                )
            }
        } else if cell > 0 {
            (line, cell - 1)
        } else {
            let next = if line <= first {
                last
            } else {
                line - 1
            };
            let landed = if next == separator {
                most(next - 1, first)
            } else {
                next
            };
            (landed, self.stops(landed) - 1)
        }
    }

    /// How long a jump can stay on the separator line.
    pub open spec fn jump_measure(self, info: TableInfo, line: int, cell: int, forward: bool) -> int {
        let n = self.stops(info.separator_line as int);
        if line != info.separator_line {
            n + 1
        } else if forward {
            most(n - cell, 0)
        } else {
            most(cell, 0)
        }
    }

    /// The next cell that is not on the separator line.
    pub open spec fn jumped(self, info: TableInfo, line: int, cell: int, forward: bool) -> (int, int)
        decreases self.jump_measure(info, line, cell, forward),
    {
        let (l, c) = self.next_cell(info, line, cell, forward);
        if l == info.separator_line && self.jump_measure(info, l, c, forward) < self.jump_measure(
            info,
            line,
            cell,
            forward,
        ) {
            self.jumped(info, l, c, forward)
        } else {
            (l, c)
        }
    }

    /// The first of the characters `[k, end)` of a line that is not white space.
    pub open spec fn past_space(self, line: int, k: int, end: int) -> int
        decreases end - k,
    {
        if 0 <= k < end && k < self.content(line).len() && ascii_space(self.content(line)[k]) {
            self.past_space(line, k + 1, end)
        } else {
            k
        }
    }

    /// Where the cursor goes in a cell: to its text.
    pub open spec fn cell_target(self, line: int, cell: int) -> int {
        let bounds = cell_bounds(self.content(line));
        if bounds.len() == 0 {
            line_start(self.bytes(), line)
        } else {
            let (start, end) = bounds[least(cell, bounds.len() - 1)];
            self.line_byte(line, self.past_space(line, start, end))
        }
    }

    /// The editor with the cursor in the next (or previous) cell of the table.
    #[verifier::opaque]
    pub open spec fn cell_jumped(self, forward: bool) -> EditorView {
        match self.table() {
            None => self,
            Some(info) => {
                let line = self.cursor_line();
                let (l, c) = self.jumped(info, line, self.cell_touched(line, 0), forward);
                self.at(self.cell_target(l, c)).synced().run_ended()
            },
        }
    }

    /// The editor with an empty row below the cursor's (below the separator, in the
    /// header), the cursor in it.
    #[verifier::opaque]
    pub open spec fn row_inserted(self) -> (EditorView, Option<Seq<char>>) {
        match self.table() {
            None => (self, None),
            Some(info) => {
                let base = most(self.cursor_line(), info.separator_line as int);
                let at = line_start(self.bytes(), base + 1);
                let row = empty_row(self.content(base), info.columns as int);
                let text = if self.ending(base).len() > 0 {
                    row + self.newline()
                } else {
                    self.newline() + row + self.newline()
                };
                let v = self.run_ended().replaced(at, at, text, None).run_ended();
                let line = least(base + 1, line_count(v.bytes()) - 1);
                (
                    v.at(v.cell_target(line, 0)).cursor_recorded(),
                    Some("Inserted table row"@),
                )
            },
        }
    }

    /// The editor with the cursor's row deleted.
    #[verifier::opaque]
    pub open spec fn row_deleted(self) -> (EditorView, Option<Seq<char>>) {
        let line = self.cursor_line();
        match self.table() {
            None => (self, None),
            Some(info) => if line <= info.separator_line {
                (self, Some("Header and separator rows are protected"@))
            } else {
                let (start, end) = self.line_range(line);
                let v = self.run_ended().replaced(start, end, Seq::empty(), None).run_ended();
                let target = least(line, line_count(v.bytes()) - 1);
                (
                    v.at(line_start(v.bytes(), target)).cursor_recorded(),
                    Some("Deleted table row"@),
                )
            },
        }
    }

    /// Two lines that follow one another, exchanged. Each line ending stays where it is.
    pub open spec fn lines_exchanged(self, first: int) -> Seq<char> {
        self.content(first + 1) + self.ending(first) + self.content(first) + self.ending(first + 1)
    }

    /// The editor with the cursor's row moved one down (or up), the cursor with it.
    #[verifier::opaque]
    pub open spec fn row_moved(self, down: bool) -> (EditorView, Option<Seq<char>>) {
        let line = self.cursor_line();
        match self.table() {
            None => (self, None),
            Some(info) => if line <= info.separator_line {
                (self, Some("Header and separator rows are protected"@))
            } else if down && line >= info.end_line {
                (self, Some("Already at last table row"@))
            } else if !down && line <= info.separator_line + 1 {
                (self, Some("Already at first data row"@))
            } else {
                let target = if down {
                    line + 1
                } else {
                    line - 1
                };
                let first = least(line, target);
                let v = self.run_ended().replaced(
                    line_start(self.bytes(), first),
                    line_start(self.bytes(), first + 2),
                    self.lines_exchanged(first),
                    None,
                ).run_ended();
                let landed = least(target, line_count(v.bytes()) - 1);
                (
                    v.at(line_start(v.bytes(), landed)).cursor_recorded(),
                    Some("Moved table row"@),
                )
            },
        }
    }
}

/// A character of a line begins where a character of the document begins.
pub proof fn lemma_line_byte(v: EditorView, line: int, k: int)
    requires
        0 <= line < line_count(v.bytes()),
        0 <= k <= v.content(line).len(),
    ensures
        boundary(v.bytes(), v.line_byte(line, k)),
{
    let b = v.bytes();
    encode_utf8_valid_utf8(v.doc.text);
    let whole = line_bytes(b, line);
    let s = line_start(b, line);
    let e = content_end(whole);
    lemma_line_starts_grow(b, line, line + 1);
    lemma_line_start_boundary(b, line);
    lemma_line_end_boundary(b, line);
    crate::markdown::tokenizer::lemma_content_end(whole);
    lemma_valid_between(b, s, s + e);
    assert(whole.subrange(0, e) =~= b.subrange(s, s + e));
    decode_utf8_encode_utf8(whole.subrange(0, e));
    let content = v.content(line);
    assert(encode_utf8(content) == b.subrange(s, s + e));
    lemma_cut_bytes(content, k);
    let off = byte_len(content.take(k)) as int;
    let tail = encode_utf8(content.skip(k));
    encode_utf8_valid_utf8(content.skip(k));
    lemma_boundary_ends(tail);
    if off < e {
        assert(tail[0] == b[s + off]);
    }
}

/// The space between pipes is inside the line.
pub proof fn lemma_past_space(v: EditorView, line: int, k: int, end: int)
    requires
        0 <= k <= v.content(line).len(),
    ensures
        k <= v.past_space(line, k, end) <= v.content(line).len(),
    decreases end - k,
{
    if k < end && k < v.content(line).len() && ascii_space(v.content(line)[k]) {
        lemma_past_space(v, line, k + 1, end);
    }
}

/// Exchanging two lines keeps their text, in the other order.
pub proof fn lemma_exchange_keeps_the_text(v: EditorView, first: int)
    ensures
        v.lines_exchanged(first).len() == v.content(first).len() + v.ending(first).len() + v.content(
            first + 1,
        ).len() + v.ending(first + 1).len(),
        v.lines_exchanged(first).to_multiset() =~= (v.content(first) + v.ending(first) + v.content(
            first + 1,
        ) + v.ending(first + 1)).to_multiset(),
{
    let a = v.content(first);
    let x = v.ending(first);
    let c = v.content(first + 1);
    let y = v.ending(first + 1);
    vstd::seq_lib::lemma_multiset_commutative(a + x, c + y);
    vstd::seq_lib::lemma_multiset_commutative(c + x, a + y);
    vstd::seq_lib::lemma_multiset_commutative(c, x);
    vstd::seq_lib::lemma_multiset_commutative(a, y);
    vstd::seq_lib::lemma_multiset_commutative(a, x);
    vstd::seq_lib::lemma_multiset_commutative(c, y);
    assert(a + x + c + y =~= (a + x) + (c + y));
    assert(c + x + a + y =~= (c + x) + (a + y));
}

/// An empty row with the indentation and the outer pipes of a sample.
pub fn empty_table_row(sample: &str, count: usize) -> (row: String)
    ensures
        row@ == empty_row(sample@, count as int),
{
    let t = to_chars(trim(sample).as_str());
    let leading = t.len() > 0 && t[0] == '|';
    let trailing = t.len() > 0 && t[t.len() - 1] == '|';
    // Keep the sample row's indentation so an indented table stays aligned.
    let mut row = leading_indent(sample);
    if leading {
        row.push('|');
    }
    let ghost head = row@;
    let mut n: usize = 0;
    while n < count
        invariant
            n <= count,
            row@ == empty_cells(head, trailing, count as int, n as int),
        decreases count - n,
    {
        row.push(' ');
        row.push(' ');
        n += 1;
        if n < count || trailing {
            row.push('|');
        }
    }
    row
}

impl Editor {
    fn is_table_like_line(&self, line: usize) -> (yes: bool)
        requires
            line < line_count(self@.bytes()),
        ensures
            yes == self@.table_like(line as int),
    {
        let text = self.line_without_eol(line);
        contains_char(text.as_str(), '|') && !trim(text.as_str()).as_str().is_empty()
    }

    fn parsed_row(&self, line: usize) -> (row: ParsedRow)
        requires
            line < line_count(self@.bytes()),
        ensures
            row@ == self@.row(line as int),
    {
        let (body, eol) = self.split_line(line);
        ParsedRow::new(body.as_str(), eol)
    }

    fn table_cells_text(&self, line: usize) -> (cells: Vec<String>)
        requires
            line < line_count(self@.bytes()),
        ensures
            views(cells@) == self@.line_cells(line as int),
    {
        if !self.is_table_like_line(line) {
            let none: Vec<String> = Vec::new();
            assert(views(none@) =~= Seq::<Seq<char>>::empty());
            return none;
        }
        self.parsed_row(line).cells
    }

    fn is_separator_line(&self, line: usize) -> (yes: bool)
        requires
            line < line_count(self@.bytes()),
        ensures
            yes == self@.separates(line as int),
    {
        let cells = self.table_cells_text(line);
        assert(views(cells@).len() == cells@.len());
        cells.len() > 0 && are_dashes(&cells, 1)
    }

    /// Whether the cursor is in a table.
    pub fn is_in_table(&self) -> (yes: bool)
        requires
            self.wf(),
        ensures
            yes == (self@.table() is Some),
    {
        self.table_at_cursor().is_some()
    }

    /// The table that the cursor is in.
    pub fn table_at_cursor(&self) -> (info: Option<TableInfo>)
        requires
            self.wf(),
        ensures
            info == self@.table(),
            info is Some ==> (info->0).start_line <= self@.cursor_line() <= (info->0).end_line,
            info is Some ==> (info->0).start_line < (info->0).separator_line <= (info->0).end_line
                < line_count(self@.bytes()),
    {
        proof {
            reveal(EditorView::table);
        }
        let total: usize = self.line_count();
        let line: usize = self.cursor_line();
        if !self.is_table_like_line(line) || self.in_fenced_code(line) {
            return None;
        }
        let mut first: usize = line;
        while first > 0 && self.is_table_like_line(first - 1)
            invariant
                first <= line < line_count(self@.bytes()),
                self@.table_top(line as int) == self@.table_top(first as int),
            decreases first,
        {
            first -= 1;
        }
        let mut last: usize = line;
        while last + 1 < total && self.is_table_like_line(last + 1)
            invariant
                line <= last < total,
                total == line_count(self@.bytes()),
                self@.table_bottom(line as int) == self@.table_bottom(last as int),
            decreases total - last,
        {
            last += 1;
        }
        let mut separator: usize = first + 1;
        while separator <= last && !self.is_separator_line(separator)
            invariant
                first < separator <= last + 1,
                last < total,
                total == line_count(self@.bytes()),
                self@.separator_from(first + 1, last as int) == self@.separator_from(
                    separator as int,
                    last as int,
                ),
            decreases last + 1 - separator,
        {
            separator += 1;
        }
        if separator > last {
            return None;
        }
        let mut columns: usize = 0;
        let mut l: usize = first;
        while l <= last
            invariant
                first <= l <= last + 1,
                last < total,
                total == line_count(self@.bytes()),
                columns == self@.most_cells(first as int, l as int),
            decreases last + 1 - l,
        {
            let cells = self.table_cells_text(l);
            assert(views(cells@).len() == cells@.len());
            if cells.len() > columns {
                columns = cells.len();
            }
            l += 1;
        }
        Some(
            TableInfo {
                start_line: first,
                separator_line: separator,
                end_line: last,
                columns,
            },
        )
    }

    fn table_widths(&self, info: TableInfo) -> (widths: Vec<usize>)
        requires
            info.start_line <= info.end_line < line_count(self@.bytes()),
        ensures
            widths@ == self@.column_widths(info),
    {
        let total: usize = self.line_count();
        let mut widths: Vec<usize> = Vec::new();
        let mut c: usize = 0;
        while c < info.columns
            invariant
                c <= info.columns,
                widths@.len() == c,
                forall|k: int| 0 <= k < c ==> widths@[k] == 3,
            decreases info.columns - c,
        {
            widths.push(3);
            c += 1;
        }
        let mut line: usize = info.start_line;
        while line <= info.end_line
            invariant
                info.start_line <= line <= info.end_line + 1,
                info.end_line < total,
                total == line_count(self@.bytes()),
                widths@.len() == info.columns,
                forall|k: int|
                    0 <= k < info.columns ==> widths@[k] == self@.column_width(
                        info.start_line as int,
                        line as int,
                        info.separator_line as int,
                        k,
                    ),
            decreases info.end_line + 1 - line,
        {
            let row = self.parsed_row(line);
            let ghost before = widths@;
            if line != info.separator_line {
                assert(row@.cells == views(row.cells@));
                let mut k: usize = 0;
                while k < row.cells.len() && k < widths.len()
                    invariant
                        k <= row.cells@.len(),
                        k <= widths@.len(),
                        widths@.len() == info.columns,
                        before.len() == info.columns,
                        forall|j: int|
                            0 <= j < k ==> widths@[j] == wider(
                                before[j],
                                columns(row.cells@[j]@),
                            ),
                        forall|j: int| k <= j < info.columns ==> widths@[j] == before[j],
                    decreases row.cells@.len() - k,
                {
                    let w: usize = width(row.cells[k].as_str());
                    if w >= widths[k] {
                        widths.set(k, w);
                    }
                    k += 1;
                }
            }
            line += 1;
            proof {
                assert(views(row.cells@).len() == row.cells@.len());
                assert forall|k: int| 0 <= k < info.columns implies widths@[k] == self@.column_width(
                    info.start_line as int,
                    line as int,
                    info.separator_line as int,
                    k,
                ) by {
                    let cells = self@.row(line - 1).cells;
                    assert(before[k] == self@.column_width(
                        info.start_line as int,
                        line - 1,
                        info.separator_line as int,
                        k,
                    ));
                    if k < cells.len() {
                        assert(cells[k] == row.cells@[k]@);
                    }
                }
            }
        }
        assert(widths@ =~= self@.column_widths(info));
        widths
    }

    /// Lay the table at the cursor out. What comes back is the status to show.
    pub fn format_table(&mut self) -> (status: Option<&'static str>)
        requires
            old(self).wf(),
        ensures
            final(self).wf(),
            (final(self)@, opt_str(status)) == old(self)@.table_formatted(),
    {
        proof {
            reveal(EditorView::table_formatted);
        }
        let info = match self.table_at_cursor() {
            Some(info) => info,
            None => {
                return Some("No table at cursor");
            },
        };
        let total: usize = self.line_count();
        let widths = self.table_widths(info);
        let mut text = String::new();
        let mut line: usize = info.start_line;
        assert(text@ =~= self@.formatted_rows(info, line as int));
        while line <= info.end_line
            invariant
                info.start_line <= line <= info.end_line + 1,
                info.end_line < total,
                total == line_count(self@.bytes()),
                widths@ == self@.column_widths(info),
                text@ == self@.formatted_rows(info, line as int),
            decreases info.end_line + 1 - line,
        {
            let row = self.parsed_row(line);
            let part = row.format(&widths, line == info.separator_line);
            text.append(part.as_str());
            line += 1;
        }
        let start: usize = self.line_begin(info.start_line);
        let end: usize = self.line_begin(info.end_line + 1);
        proof {
            self.lemma_ok();
            lemma_line_starts_grow(self@.bytes(), info.start_line as int, info.end_line + 1);
            lemma_line_of(self@.bytes(), self@.cursor.byte as int);
            lemma_line_starts_grow(self@.bytes(), info.start_line as int, self@.cursor_line());
        }
        let col: usize = self.cursor().byte - start;
        let room: usize = byte_length(text.as_str());
        let cursor: usize = start.saturating_add(
            if col <= room {
                col
            } else {
                room
            },
        );
        self.break_run();
        self.replace_range_with_cursor(start, end, text.as_str(), Some(cursor));
        self.break_run();
        Some("Table formatted")
    }

    /// The byte in a line at which its `k`-th character stands.
    fn line_byte(&self, line: usize, text: &Vec<char>, k: usize) -> (byte: usize)
        requires
            line < line_count(self@.bytes()),
            text@ == self@.content(line as int),
            k <= text@.len(),
        ensures
            byte == self@.line_byte(line as int, k as int),
            boundary(self@.bytes(), byte as int),
    {
        let start: usize = self.line_begin(line);
        let head = from_chars(text, 0, k);
        assert(head@ =~= text@.take(k as int));
        proof {
            lemma_line_byte(self@, line as int, k as int);
        }
        let len: usize = self.buffer().len_bytes();
        start + byte_length(head.as_str())
    }

    fn current_table_cell(&self, line: usize) -> (cell: usize)
        requires
            line < line_count(self@.bytes()),
        ensures
            cell == self@.cell_touched(line as int, 0),
            cell < usize::MAX,
    {
        let text = self.line_without_eol(line);
        let chars = to_chars(text.as_str());
        let bounds = table_cell_bounds(text.as_str());
        let cursor: usize = self.cursor().byte;
        let ghost b = cell_bounds(text@);
        assert(b.len() == bounds@.len());
        let mut k: usize = 0;
        while k < bounds.len()
            invariant
                k <= bounds@.len(),
                line < line_count(self@.bytes()),
                text@ == self@.content(line as int),
                chars@ == text@,
                b == cell_bounds(text@),
                b == bound_places(bounds@),
                b.len() == bounds@.len(),
                forall|k: int|
                    0 <= k < bounds@.len() ==> (#[trigger] bounds@[k]).0 <= bounds@[k].1
                        <= text@.len(),
                cursor == self@.cursor.byte,
                self@.cell_touched(line as int, 0) == self@.cell_touched(line as int, k as int),
            decreases bounds@.len() - k,
        {
            let (from, to) = bounds[k];
            assert(b[k as int] == (from as int, to as int));
            // The end bound is inclusive: a cursor sitting on a `|` counts as
            // being in the cell that pipe closes.
            if self.line_byte(line, &chars, from) <= cursor && cursor <= self.line_byte(
                line,
                &chars,
                to,
            ) {
                return k;
            }
            k += 1;
        }
        bounds.len().saturating_sub(1)
    }

    fn table_stops(&self, line: usize) -> (n: usize)
        requires
            line < line_count(self@.bytes()),
        ensures
            n == self@.stops(line as int),
    {
        let text = self.line_without_eol(line);
        let bounds = table_cell_bounds(text.as_str());
        assert(bound_places(bounds@).len() == bounds@.len());
        if bounds.len() == 0 {
            1
        } else {
            bounds.len()
        }
    }

    fn table_cell_target(&self, line: usize, cell: usize) -> (byte: usize)
        requires
            line < line_count(self@.bytes()),
        ensures
            byte == self@.cell_target(line as int, cell as int),
            boundary(self@.bytes(), byte as int),
    {
        let text = self.line_without_eol(line);
        let chars = to_chars(text.as_str());
        let bounds = table_cell_bounds(text.as_str());
        let ghost b = cell_bounds(text@);
        assert(b.len() == bounds@.len());
        if bounds.len() == 0 {
            return self.line_begin(line);
        }
        let (start, end) = if cell < bounds.len() {
            bounds[cell]
        } else {
            bounds[bounds.len() - 1]
        };
        assert(b[least(cell as int, b.len() - 1)] == (start as int, end as int));
        let mut k: usize = start;
        while k < end && is_ascii_space(chars[k])
            invariant
                start <= k <= end <= chars@.len(),
                chars@ == self@.content(line as int),
                self@.past_space(line as int, start as int, end as int) == self@.past_space(
                    line as int,
                    k as int,
                    end as int,
                ),
            decreases end - k,
        {
            k += 1;
        }
        self.line_byte(line, &chars, k)
    }

    fn next_table_cell(&self, info: TableInfo, line: usize, cell: usize, forward: bool) -> (r: (
        usize,
        usize,
    ))
        requires
            info.start_line < info.separator_line <= info.end_line < line_count(self@.bytes()),
            info.start_line <= line <= info.end_line,
            cell < usize::MAX,
        ensures
            (r.0 as int, r.1 as int) == self@.next_cell(info, line as int, cell as int, forward),
            info.start_line <= r.0 <= info.end_line,
            r.1 < usize::MAX,
            r.0 == info.separator_line ==> self@.jump_measure(info, r.0 as int, r.1 as int, forward)
                < self@.jump_measure(info, line as int, cell as int, forward),
    {
        let total: usize = self.line_count();
        let stops: usize = self.table_stops(line);
        if forward {
            if cell + 1 < stops {
                return (line, cell + 1);
            }
            let next: usize = if line >= info.end_line {
                info.start_line
            } else {
                line + 1
            };
            if next == info.separator_line {
                return (
                    if next < info.end_line {
                        next + 1
                    } else {
                        info.end_line
                    },
                    0,
                );
            }
            (next, 0)
        } else {
            if cell > 0 {
                return (line, cell - 1);
            }
            let next: usize = if line <= info.start_line {
                info.end_line
            } else {
                line - 1
            };
            let landed: usize = if next == info.separator_line {
                next - 1
            } else {
                next
            };
            (landed, self.table_stops(landed) - 1)
        }
    }

    /// Move to the next (or previous) cell of the table.
    pub fn jump_table_cell(&mut self, forward: bool)
        requires
            old(self).wf(),
        ensures
            final(self).wf(),
            final(self)@ == old(self)@.cell_jumped(forward),
    {
        proof {
            reveal(EditorView::cell_jumped);
        }
        let info = match self.table_at_cursor() {
            Some(info) => info,
            None => {
                return;
            },
        };
        let ghost v = self@;
        let mut line: usize = self.cursor_line();
        let mut cell: usize = self.current_table_cell(line);
        let ghost goal = v.jumped(info, line as int, cell as int, forward);
        proof {
            lemma_touched(v, line as int, 0);
        }
        loop
            invariant_except_break
                v.jumped(info, line as int, cell as int, forward) == goal,
            invariant
                self@ == v,
                info.start_line < info.separator_line <= info.end_line < line_count(v.bytes()),
                info.start_line <= line <= info.end_line,
                cell < usize::MAX,
            ensures
                (line as int, cell as int) == goal,
            decreases v.jump_measure(info, line as int, cell as int, forward),
        {
            let (l, c) = self.next_table_cell(info, line, cell, forward);
            line = l;
            cell = c;
            if l != info.separator_line {
                break ;
            }
        }
        let target: usize = self.table_cell_target(line, cell);
        self.place_cursor(target);
        self.sync_goal();
        self.break_run();
    }

    /// Add an empty row below the cursor's.
    pub fn insert_table_row(&mut self) -> (status: Option<&'static str>)
        requires
            old(self).wf(),
        ensures
            final(self).wf(),
            (final(self)@, opt_str(status)) == old(self)@.row_inserted(),
    {
        proof {
            reveal(EditorView::row_inserted);
        }
        let info = match self.table_at_cursor() {
            Some(info) => info,
            None => {
                return None;
            },
        };
        let total: usize = self.line_count();
        let cursor_line: usize = self.cursor_line();
        let base: usize = if cursor_line > info.separator_line {
            cursor_line
        } else {
            info.separator_line
        };
        let (sample, ending) = self.split_line(base);
        let row = empty_table_row(sample.as_str(), info.columns);
        let at: usize = self.line_begin(base + 1);
        let nl = self.newline();
        let line_text = joined(row.as_str(), nl);
        let text = if !ending.as_str().is_empty() {
            line_text
        } else {
            let whole = joined(nl, line_text.as_str());
            assert(whole@ =~= nl@ + row@ + nl@);
            whole
        };
        self.break_run();
        self.replace_range(at, at, text.as_str());
        self.break_run();
        let count: usize = self.line_count();
        let line: usize = if base + 1 < count {
            base + 1
        } else {
            count - 1
        };
        let target: usize = self.table_cell_target(line, 0);
        self.place_cursor(target);
        self.record_cursor();
        Some("Inserted table row")
    }

    /// Delete the cursor's row.
    pub fn delete_table_row(&mut self) -> (status: Option<&'static str>)
        requires
            old(self).wf(),
        ensures
            final(self).wf(),
            (final(self)@, opt_str(status)) == old(self)@.row_deleted(),
    {
        proof {
            reveal(EditorView::row_deleted);
        }
        let info = match self.table_at_cursor() {
            Some(info) => info,
            None => {
                return None;
            },
        };
        let line: usize = self.cursor_line();
        if line <= info.separator_line {
            return Some("Header and separator rows are protected");
        }
        let (start, end) = self.line_range(line);
        let empty = String::new();
        assert(empty@ =~= Seq::<char>::empty());
        self.break_run();
        self.replace_range(start, end, empty.as_str());
        self.break_run();
        let count: usize = self.line_count();
        let target: usize = if line < count - 1 {
            line
        } else {
            count - 1
        };
        let byte: usize = self.line_begin(target);
        self.place_cursor(byte);
        self.record_cursor();
        Some("Deleted table row")
    }

    /// Move the cursor's row one down (or up).
    pub fn move_table_row(&mut self, down: bool) -> (status: Option<&'static str>)
        requires
            old(self).wf(),
        ensures
            final(self).wf(),
            (final(self)@, opt_str(status)) == old(self)@.row_moved(down),
    {
        proof {
            reveal(EditorView::row_moved);
        }
        let info = match self.table_at_cursor() {
            Some(info) => info,
            None => {
                return None;
            },
        };
        let line: usize = self.cursor_line();
        if line <= info.separator_line {
            return Some("Header and separator rows are protected");
        }
        if down && line >= info.end_line {
            return Some("Already at last table row");
        }
        if !down && line <= info.separator_line + 1 {
            return Some("Already at first data row");
        }
        let target: usize = if down {
            line + 1
        } else {
            line - 1
        };
        let first: usize = if down {
            line
        } else {
            target
        };
        let (first_start, _first_end) = self.line_range(first);
        let (_second_start, second_end) = self.line_range(first + 1);
        // Swap the two line bodies but keep each newline at its original
        // position: `first` always carries a terminator (it is never the last
        // line), while the second may be the unterminated final line. Moving the
        // terminators with the bodies would otherwise merge the rows onto one
        // physical line when the table sits at the end without a trailing newline.
        let (first_body, first_term) = self.split_line(first);
        let (second_body, second_term) = self.split_line(first + 1);
        let mut text = second_body;
        text.append(first_term.as_str());
        text.append(first_body.as_str());
        text.append(second_term.as_str());
        assert(text@ =~= self@.lines_exchanged(first as int));
        proof {
            lemma_line_starts_grow(self@.bytes(), first as int, first + 2);
        }
        self.break_run();
        self.replace_range(first_start, second_end, text.as_str());
        self.break_run();
        let count: usize = self.line_count();
        let landed: usize = if target < count - 1 {
            target
        } else {
            count - 1
        };
        let byte: usize = self.line_begin(landed);
        self.place_cursor(byte);
        self.record_cursor();
        Some("Moved table row")
    }
}

proof fn lemma_touched(v: EditorView, line: int, k: int)
    requires
        0 <= k,
    ensures
        0 <= v.cell_touched(line, k),
        v.cell_touched(line, k) < most(cell_bounds(v.content(line)).len() as int, 1),
    decreases cell_bounds(v.content(line)).len() - k,
{
    let bounds = cell_bounds(v.content(line));
    if k < bounds.len() {
        lemma_touched(v, line, k + 1);
    }
}

// --- what holds of moving between cells ---

/// Whether a table is one with a header, a separator below it, and rows.
pub open spec fn table_shaped(info: TableInfo) -> bool {
    info.start_line < info.separator_line <= info.end_line
}

/// How many cells a line of a table has to stop at: none on the separator, and one on a line
/// without any.
pub open spec fn cells_on(v: EditorView, info: TableInfo, line: int) -> int {
    if line == info.separator_line {
        0
    } else if cell_bounds(v.content(line)).len() == 0 {
        1
    } else {
        cell_bounds(v.content(line)).len() as int
    }
}

/// How many cells a table has above a line.
pub open spec fn cells_above(v: EditorView, info: TableInfo, line: int) -> int
    decreases line - info.start_line,
{
    if line <= info.start_line {
        0
    } else {
        cells_above(v, info, line - 1) + cells_on(v, info, line - 1)
    }
}

/// Whether there is such a cell to stop at.
pub open spec fn cell_there(v: EditorView, info: TableInfo, at: (int, int)) -> bool {
    info.start_line <= at.0 <= info.end_line && 0 <= at.1 < cells_on(v, info, at.0)
}

/// The number of a cell, when all the cells of a table are counted row by row.
pub open spec fn cell_number(v: EditorView, info: TableInfo, at: (int, int)) -> int {
    cells_above(v, info, at.0) + at.1
}

/// How many cells a table has.
pub open spec fn cell_total(v: EditorView, info: TableInfo) -> int {
    cells_above(v, info, info.end_line + 1)
}

/// The cell after some steps forward.
pub open spec fn cell_after(v: EditorView, info: TableInfo, at: (int, int), steps: nat) -> (int, int)
    decreases steps,
{
    if steps == 0 {
        at
    } else {
        let (line, cell) = cell_after(v, info, at, (steps - 1) as nat);
        v.jumped(info, line, cell, true)
    }
}

proof fn lemma_cells_above_grow(v: EditorView, info: TableInfo, a: int, b: int)
    requires
        info.start_line <= a <= b,
    ensures
        0 <= cells_above(v, info, a) <= cells_above(v, info, b),
        a < b ==> cells_above(v, info, a) + cells_on(v, info, a) <= cells_above(v, info, b),
    decreases b - info.start_line,
{
    if a < b {
        lemma_cells_above_grow(v, info, a, b - 1);
    } else if a > info.start_line {
        lemma_cells_above_grow(v, info, a - 1, a - 1);
    }
}

/// From the separator, a jump leads to the row below it, or to the header.
proof fn lemma_separator_is_crossed(v: EditorView, info: TableInfo, cell: int)
    requires
        table_shaped(info),
        0 <= cell < v.stops(info.separator_line as int),
    ensures
        v.jumped(info, info.separator_line as int, cell, true) == if info.separator_line
            < info.end_line {
            (info.separator_line + 1, 0int)
        } else {
            (info.start_line as int, 0int)
        },
    decreases v.stops(info.separator_line as int) - cell,
{
    if cell + 1 < v.stops(info.separator_line as int) {
        lemma_separator_is_crossed(v, info, cell + 1);
    }
}

/// Going forward leads to the next cell of the row; from its last cell to the first cell of
/// the next row that is not the separator; and from the last cell of the table to the first
/// of its header. The cells are so visited in the order in which they are counted.
pub proof fn lemma_forward_leads_to_the_next_cell(v: EditorView, info: TableInfo, at: (int, int))
    requires
        table_shaped(info),
        cell_there(v, info, at),
    ensures
        ({
            let to = v.jumped(info, at.0, at.1, true);
            &&& cell_there(v, info, to)
            &&& cell_there(v, info, (at.0, at.1 + 1)) ==> to == (at.0, at.1 + 1)
            &&& !cell_there(v, info, (at.0, at.1 + 1)) && at.0 < info.end_line && at.0 + 1
                != info.separator_line ==> to == (at.0 + 1, 0int)
            &&& !cell_there(v, info, (at.0, at.1 + 1)) && at.0 + 1 == info.separator_line && at.0 + 2
                <= info.end_line ==> to == (at.0 + 2, 0int)
            &&& cell_number(v, info, to) == if cell_number(v, info, at) + 1 == cell_total(v, info) {
                0
            } else {
                cell_number(v, info, at) + 1
            }
        }),
{
    let to = v.jumped(info, at.0, at.1, true);
    let sep = info.separator_line as int;
    let last = info.end_line as int;
    assert(cells_on(v, info, at.0) == v.stops(at.0));
    let next = v.next_cell(info, at.0, at.1, true);
    if at.1 + 1 < v.stops(at.0) {
        assert(to == (at.0, at.1 + 1));
        lemma_cells_above_grow(v, info, at.0, last + 1);
    } else {
        if at.0 + 1 == sep && sep == last {
            assert(next == (sep, 0int));
            lemma_separator_is_crossed(v, info, 0);
        } else {
            assert(next.0 != sep);
            assert(to == next);
        }
        lemma_cells_above_grow(v, info, at.0, last + 1);
        assert(cells_above(v, info, at.0 + 1) == cells_above(v, info, at.0) + cells_on(
            v,
            info,
            at.0,
        ));
        if at.0 + 1 == sep {
            assert(cells_above(v, info, sep + 1) == cells_above(v, info, sep) + 0);
        }
        if to.0 > at.0 {
            lemma_cells_above_grow(v, info, to.0, last + 1);
        }
    }
}

/// No two cells have the same number.
proof fn lemma_cell_numbers_differ(v: EditorView, info: TableInfo, a: (int, int), b: (int, int))
    requires
        cell_there(v, info, a),
        cell_there(v, info, b),
        cell_number(v, info, a) == cell_number(v, info, b),
    ensures
        a == b,
{
    if a.0 < b.0 {
        lemma_cells_above_grow(v, info, a.0, b.0);
    } else if b.0 < a.0 {
        lemma_cells_above_grow(v, info, b.0, a.0);
    }
}

proof fn lemma_cell_after(v: EditorView, info: TableInfo, steps: nat)
    requires
        table_shaped(info),
        steps < cell_total(v, info),
    ensures
        cell_there(v, info, cell_after(v, info, (info.start_line as int, 0int), steps)),
        cell_number(v, info, cell_after(v, info, (info.start_line as int, 0int), steps)) == steps,
    decreases steps,
{
    if steps > 0 {
        lemma_cell_after(v, info, (steps - 1) as nat);
        lemma_forward_leads_to_the_next_cell(
            v,
            info,
            cell_after(v, info, (info.start_line as int, 0int), (steps - 1) as nat),
        );
    }
}

/// Going forward again and again from the first cell of the header visits every cell of
/// every row but the separator, each once, before it comes back.
pub proof fn lemma_forward_visits_every_cell(v: EditorView, info: TableInfo, at: (int, int))
    requires
        table_shaped(info),
        cell_there(v, info, at),
    ensures
        ({
            let home = (info.start_line as int, 0int);
            let total = cell_total(v, info);
            &&& exists|n: nat|
                n < total && #[trigger] cell_after(v, info, home, n) == at
            &&& forall|m: nat, n: nat|
                m < total && n < total && #[trigger] cell_after(v, info, home, m) == at
                    && #[trigger] cell_after(v, info, home, n) == at ==> m == n
            &&& cell_after(v, info, home, total as nat) == home
        }),
{
    let home = (info.start_line as int, 0int);
    let total = cell_total(v, info);
    let last = info.end_line as int;
    lemma_cells_above_grow(v, info, at.0, last + 1);
    let n = cell_number(v, info, at) as nat;
    lemma_cell_after(v, info, n);
    lemma_cell_numbers_differ(v, info, cell_after(v, info, home, n), at);
    assert forall|m: nat, n: nat|
        m < total && n < total && #[trigger] cell_after(v, info, home, m) == at
            && #[trigger] cell_after(v, info, home, n) == at implies m == n by {
        lemma_cell_after(v, info, m);
        lemma_cell_after(v, info, n);
    }
    let end = cell_after(v, info, home, (total - 1) as nat);
    lemma_cell_after(v, info, (total - 1) as nat);
    lemma_forward_leads_to_the_next_cell(v, info, end);
    let (line, cell) = end;
    assert(cell_after(v, info, home, total as nat) == v.jumped(info, line, cell, true));
    assert(cell_there(v, info, home));
    lemma_cell_numbers_differ(v, info, cell_after(v, info, home, total as nat), home);
}

proof fn lemma_forward_undoes_back(v: EditorView, info: TableInfo, at: (int, int))
    requires
        table_shaped(info),
        cell_there(v, info, at),
    ensures
        ({
            let back = v.jumped(info, at.0, at.1, false);
            cell_there(v, info, back) && v.jumped(info, back.0, back.1, true) == at
        }),
{
    let sep = info.separator_line as int;
    assert(cells_on(v, info, at.0) == v.stops(at.0));
    let back = v.jumped(info, at.0, at.1, false);
    let near = v.next_cell(info, at.0, at.1, false);
    assert(near.0 != sep);
    assert(back == near);
    assert(cells_on(v, info, back.0) == v.stops(back.0));
    lemma_forward_leads_to_the_next_cell(v, info, back);
    if at.1 == 0 && at.0 <= info.start_line && sep == info.end_line {
        assert(back.0 == sep - 1);
        lemma_separator_is_crossed(v, info, 0);
    }
}

/// Going back undoes going forward, and going forward undoes going back.
pub proof fn lemma_back_undoes_forward(v: EditorView, info: TableInfo, at: (int, int))
    requires
        table_shaped(info),
        cell_there(v, info, at),
    ensures
        ({
            let to = v.jumped(info, at.0, at.1, true);
            v.jumped(info, to.0, to.1, false) == at
        }),
        ({
            let back = v.jumped(info, at.0, at.1, false);
            cell_there(v, info, back) && v.jumped(info, back.0, back.1, true) == at
        }),
{
    let to = v.jumped(info, at.0, at.1, true);
    lemma_forward_leads_to_the_next_cell(v, info, at);
    lemma_forward_undoes_back(v, info, at);
    lemma_forward_undoes_back(v, info, to);
    let back = v.jumped(info, to.0, to.1, false);
    lemma_forward_leads_to_the_next_cell(v, info, back);
    lemma_cells_above_grow(v, info, at.0, info.end_line + 1);
    lemma_cells_above_grow(v, info, back.0, info.end_line + 1);
    lemma_cell_numbers_differ(v, info, at, back);
}

proof fn lemma_more_bytes(content: Seq<char>, i: int, j: int)
    requires
        0 <= i < j <= content.len(),
    ensures
        byte_len(content.take(i)) < byte_len(content.take(j)),
{
    let t = content.take(j);
    lemma_cut_bytes(t, i);
    assert(t.take(i) =~= content.take(i));
    let rest = t.skip(i);
    assert(rest.len() > 0);
    encode_utf8_decode_utf8(rest);
    if encode_utf8(rest).len() == 0 {
        assert(encode_utf8(rest) =~= encode_utf8(Seq::<char>::empty()));
        encode_utf8_decode_utf8(Seq::<char>::empty());
    }
}

proof fn lemma_past_space_stops(v: EditorView, line: int, k: int, end: int)
    requires
        k <= end,
    ensures
        k <= v.past_space(line, k, end) <= end,
    decreases end - k,
{
    if 0 <= k < end && k < v.content(line).len() && ascii_space(v.content(line)[k]) {
        lemma_past_space_stops(v, line, k + 1, end);
    }
}

proof fn lemma_touched_is(v: EditorView, line: int, k: int, cell: int)
    requires
        0 <= k <= cell < cell_bounds(v.content(line)).len(),
        v.line_byte(line, cell_bounds(v.content(line))[cell].0) <= v.cursor.byte <= v.line_byte(
            line,
            cell_bounds(v.content(line))[cell].1,
        ),
    ensures
        v.cell_touched(line, k) == cell,
    decreases cell - k,
{
    if k < cell {
        let bounds = cell_bounds(v.content(line));
        lemma_cells_follow(v.content(line), k, cell);
        lemma_cells_follow(v.content(line), k, k);
        lemma_more_bytes(v.content(line), bounds[k].1, bounds[cell].0);
        lemma_touched_is(v, line, k + 1, cell);
    }
}

/// The cursor that goes to a cell is in that cell.
#[verifier::spinoff_prover]
proof fn lemma_target_is_in_its_cell(v: EditorView, w: EditorView, line: int, cell: int)
    requires
        w.doc == v.doc,
        w.cursor.byte == v.cell_target(line, cell) as usize,
        v.bytes().len() <= usize::MAX,
        0 <= line < line_count(v.bytes()),
        0 <= cell,
        cell == 0 || cell < cell_bounds(v.content(line)).len(),
    ensures
        w.cell_touched(line, 0) == cell,
{
    let content = v.content(line);
    let bounds = cell_bounds(content);
    assert(w.bytes() == v.bytes());
    assert(w.content(line) == content);
    if bounds.len() > 0 {
        let (start, end) = bounds[cell];
        lemma_cells_follow(content, cell, cell);
        lemma_past_space_stops(v, line, start, end);
        let k = v.past_space(line, start, end);
        if start < k {
            lemma_more_bytes(content, start, k);
        }
        if k < end {
            lemma_more_bytes(content, k, end);
        }
        lemma_line_byte(v, line, k);
        assert(v.cell_target(line, cell) == v.line_byte(line, k));
        lemma_touched_is(w, line, 0, cell);
    }
}

/// Tab in a table leaves the text alone, and puts the cursor into the cell that going
/// forward (or back) leads to: that cell is then the one that the cursor is in.
#[verifier::spinoff_prover]
pub proof fn lemma_jump_puts_the_cursor_into_the_cell(v: EditorView, forward: bool)
    requires
        v.table() is Some,
        v.ok(),
    ensures
        ({
            let info = v.table()->0;
            let line = v.cursor_line();
            let to = v.jumped(info, line, v.cell_touched(line, 0), forward);
            let w = v.cell_jumped(forward);
            &&& w.doc == v.doc
            &&& w.cursor.byte == v.cell_target(to.0, to.1) as usize
            &&& cell_there(v, info, to) && to.0 < line_count(v.bytes()) ==> w.cell_touched(to.0, 0)
                == to.1
        }),
{
    reveal(EditorView::cell_jumped);
    let info = v.table()->0;
    let line = v.cursor_line();
    let to = v.jumped(info, line, v.cell_touched(line, 0), forward);
    let w = v.cell_jumped(forward);
    assert(w.doc == v.doc);
    assert(w.cursor.byte == v.cell_target(to.0, to.1) as usize);
    if cell_there(v, info, to) && to.0 < line_count(v.bytes()) {
        lemma_target_is_in_its_cell(v, w, to.0, to.1);
    }
}

proof fn lemma_table_top(v: EditorView, line: int)
    requires
        0 <= line,
    ensures
        0 <= v.table_top(line) <= line,
        forall|l: int| v.table_top(line) <= l < line ==> v.table_like(l),
    decreases line,
{
    if line > 0 && v.table_like(line - 1) {
        lemma_table_top(v, line - 1);
    }
}

proof fn lemma_table_bottom(v: EditorView, line: int)
    requires
        0 <= line < line_count(v.bytes()),
    ensures
        line <= v.table_bottom(line) < line_count(v.bytes()),
        forall|l: int| line < l <= v.table_bottom(line) ==> v.table_like(l),
    decreases line_count(v.bytes()) - line,
{
    if line + 1 < line_count(v.bytes()) && v.table_like(line + 1) {
        lemma_table_bottom(v, line + 1);
    }
}

proof fn lemma_separator_from(v: EditorView, line: int, last: int)
    ensures
        v.separator_from(line, last) matches Some(s) ==> line <= s <= last && v.separates(s),
    decreases last + 1 - line,
{
    if line <= last && !v.separates(line) {
        lemma_separator_from(v, line + 1, last);
    }
}

/// The table of the cursor is made of lines with pipes around the line of the cursor, one of
/// which, below the first, is the line of dashes that separates the header.
#[verifier::spinoff_prover]
pub proof fn lemma_table_is_around_the_cursor(v: EditorView, l: int)
    requires
        v.ok(),
        v.table() is Some,
    ensures
        ({
            let info = v.table()->0;
            &&& table_shaped(info)
            &&& info.start_line <= v.cursor_line() <= info.end_line < line_count(v.bytes())
            &&& v.separates(info.separator_line as int)
            &&& info.start_line <= l <= info.end_line ==> has_char(v.content(l), '|')
        }),
{
    reveal(EditorView::table);
    let b = v.bytes();
    let line = v.cursor_line();
    crate::rope::lemma_breaks_before(b, 0, v.cursor.byte as int);
    lemma_line_of(b, v.cursor.byte as int);
    lemma_table_top(v, line);
    lemma_table_bottom(v, line);
    lemma_separator_from(v, v.table_top(line) + 1, v.table_bottom(line));
    crate::rope::lemma_breaks_before(b, 0, b.len() as int);
    assert(line_count(b) <= usize::MAX);
    let info = v.table()->0;
    assert(info.start_line == v.table_top(line));
    assert(info.end_line == v.table_bottom(line));
    assert(v.separator_from(v.table_top(line) + 1, v.table_bottom(line)) is Some);
    assert(info.separator_line == v.separator_from(v.table_top(line) + 1, v.table_bottom(line))->0);
    assert(v.table_like(line));
    if info.start_line <= l <= info.end_line {
        assert(v.table_like(l));
    }
}

/// Tab in a row of a table puts the cursor into the next cell of the table, when its cells are
/// counted row by row without the separator, and from the last one into the first; with
/// Shift into the one before. The text stays as it is.
#[verifier::spinoff_prover]
pub proof fn lemma_tab_leads_on(v: EditorView)
    requires
        v.ok(),
        v.table() is Some,
        v.cursor_line() != (v.table()->0).separator_line,
    ensures
        ({
            let info = v.table()->0;
            let at = (v.cursor_line(), v.cell_touched(v.cursor_line(), 0));
            let to = v.jumped(info, at.0, at.1, true);
            let back = v.jumped(info, at.0, at.1, false);
            let w = v.cell_jumped(true);
            let u = v.cell_jumped(false);
            &&& cell_there(v, info, at)
            &&& w.doc == v.doc
            &&& w.cursor.byte == v.cell_target(to.0, to.1) as usize
            &&& w.cell_touched(to.0, 0) == to.1
            &&& cell_number(v, info, to) == if cell_number(v, info, at) + 1 == cell_total(v, info) {
                0
            } else {
                cell_number(v, info, at) + 1
            }
            &&& u.doc == v.doc
            &&& u.cursor.byte == v.cell_target(back.0, back.1) as usize
            &&& u.cell_touched(back.0, 0) == back.1
            &&& cell_number(v, info, at) == if cell_number(v, info, back) + 1 == cell_total(v, info) {
                0
            } else {
                cell_number(v, info, back) + 1
            }
        }),
{
    let info = v.table()->0;
    let line = v.cursor_line();
    let at = (line, v.cell_touched(line, 0));
    lemma_table_is_around_the_cursor(v, line);
    lemma_touched(v, line, 0);
    lemma_forward_leads_to_the_next_cell(v, info, at);
    lemma_back_undoes_forward(v, info, at);
    let back = v.jumped(info, at.0, at.1, false);
    lemma_forward_leads_to_the_next_cell(v, info, back);
    lemma_jump_puts_the_cursor_into_the_cell(v, true);
    lemma_jump_puts_the_cursor_into_the_cell(v, false);
}

/// A column is as wide as its widest cell, the line of dashes left out, and three columns at
/// least.
pub proof fn lemma_columns_are_as_wide_as_needed(
    v: EditorView,
    first: int,
    line: int,
    separator: int,
    column: int,
)
    requires
        0 <= column,
    ensures
        v.column_width(first, line, separator, column) >= 3,
        forall|l: int|
            first <= l < line && l != separator && column < (#[trigger] v.row(l)).cells.len()
                ==> columns(v.row(l).cells[column]) <= v.column_width(first, line, separator, column),
        v.column_width(first, line, separator, column) == 3 || exists|l: int|
            first <= l < line && l != separator && column < (#[trigger] v.row(l)).cells.len()
                && columns(v.row(l).cells[column]) == v.column_width(first, line, separator, column),
    decreases line - first,
{
    if line > first {
        lemma_columns_are_as_wide_as_needed(v, first, line - 1, separator, column);
        let before = v.column_width(first, line - 1, separator, column);
        let all = v.column_width(first, line, separator, column);
        if all != before {
            assert(all == columns(v.row(line - 1).cells[column]));
        } else if before != 3 {
            let l = choose|l: int|
                first <= l < line - 1 && l != separator && column < (#[trigger] v.row(l)).cells.len()
                    && columns(v.row(l).cells[column]) == before;
            assert(column < v.row(l).cells.len());
        }
    }
}

} // verus!
