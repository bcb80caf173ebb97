//! Display layout: materialize rope lines into [`DisplayLine`]s (visual rows) and
//! provide the bidirectional **byte ↔ (row, column)** mapping the cursor and renderer
//! rely on.
//!
//! A single logical line may produce several display lines via soft-wrap.
//! Columns are *display* columns: CJK and most emoji are width 2, combining
//! marks width 0, and tabs expand to the next tab stop. The newline itself is
//! never a cell: a hard-ended row's `byte_end` is the cursor's "end of line".
//!
//! The layout stores no cells for the document. It keeps **exact per-line row
//! counts** with chunked prefix sums for row↔line lookups, and materializes a
//! line's `DisplayLine`s only when a query or the renderer asks for them,
//! through a small bounded cache. An edit recounts only the lines it touched.

use ropey::Rope;
use vstd::prelude::*;
use vstd::utf8::*;

use crate::bytes::{boundary, lemma_boundary_at_ascii, lemma_boundary_ends, slice, text_between};
use crate::line_index::{clamp_edit, least, most, splice_of, Splice};
use crate::markdown::tokenizer::{content_end, lemma_content_end};
use crate::rope::{
    break_ends_at, breaks_before, lemma_breaks_before, lemma_line_of, lemma_line_start,
    lemma_line_start_boundary, lemma_line_starts_grow, line_bytes, line_count, line_start, rope_byte_to_line, rope_bytes, rope_clone, rope_len_bytes,
    rope_len_lines, rope_line, rope_line_to_byte, rope_text,
};
use crate::strings::{byte_len, byte_length, lemma_ascii_bytes, lemma_bytes_concat, same};
use crate::text::{
    ascii_text, cluster_starts, cluster_stop, cluster_text, clusters, columns, printable, width,
};

verus! {

/// Lines per prefix-sum chunk: row lookups scan at most this many counts.
pub const CHUNK: usize = 128;

/// The widest row that can be laid out.
pub const MAX_WRAP: usize = 65535;

/// One grapheme cluster as placed on screen.
///
/// Deliberately holds no text: the renderer slices the source line at
/// `byte..byte + len` and expands a tab to `width` spaces.
#[derive(Clone, Copy)]
pub struct Cell {
    /// Byte offset of this cluster's first byte, relative to its logical line.
    pub byte: usize,
    /// Byte length of the cluster (for grapheme-wise deletion/movement).
    pub len: usize,
    /// Display width in columns: 0, 1, or 2 (wider clusters are possible but rare).
    pub width: u16,
    /// Starting display column on this row.
    pub col: u16,
}

impl Cell {
    /// Line-relative byte offset of this cluster's first byte.
    pub fn byte(&self) -> (b: usize)
        ensures
            b == self.byte,
    {
        self.byte
    }

    /// Line-relative byte offset one past this cluster's last byte.
    pub fn byte_end(&self) -> (b: usize)
        requires
            self.byte + self.len <= usize::MAX,
        ensures
            b == self.byte + self.len,
    {
        self.byte + self.len
    }
}

/// One visual row. Owns the byte half-open range `[byte_start, byte_end)`.
pub struct DisplayLine {
    pub cells: Vec<Cell>,
    /// 0-based logical source line that owns this visual row.
    pub line: usize,
    /// Relative byte offset from the start of `line`.
    pub byte_start: usize,
    /// One past the last content byte on this row. For a hard-ended row this is
    /// the cursor's end-of-line position; for a soft-wrapped row it belongs to
    /// the next row's `byte_start`.
    pub byte_end: usize,
    /// Total display width used by this row.
    pub width: u16,
    /// True when this row ends because of wrapping rather than a real newline.
    pub soft_wrapped: bool,
}

/// What a row of a line holds.
pub struct RowView {
    pub cells: Seq<Cell>,
    pub byte_start: int,
    pub byte_end: int,
    pub width: int,
    pub soft_wrapped: bool,
}

impl View for DisplayLine {
    type V = RowView;

    open spec fn view(&self) -> RowView {
        RowView {
            cells: self.cells@,
            byte_start: self.byte_start as int,
            byte_end: self.byte_end as int,
            width: self.width as int,
            soft_wrapped: self.soft_wrapped,
        }
    }
}

impl DisplayLine {
    fn new(line: usize, start: usize) -> (row: Self)
        ensures
            row.line == line,
            row.byte_start == start,
            row.cells@ == Seq::<Cell>::empty(),
            !row.soft_wrapped,
    {
        DisplayLine {
            cells: Vec::new(),
            line,
            byte_start: start,
            byte_end: start,
            width: 0,
            soft_wrapped: false,
        }
    }
}

/// The display width of a cluster at column `col`: a tab reaches to the next tab stop.
pub open spec fn cell_width(g: Seq<char>, col: int, tab: int) -> int {
    if g == "\t"@ {
        (tab - col % tab) % 65536
    } else {
        columns(g) as int % 65536
    }
}

/// The rows of a line while its clusters are placed one by one.
pub struct Placing {
    /// The rows that are full.
    pub done: Seq<RowView>,
    /// The cells of the row being filled.
    pub cells: Seq<Cell>,
    /// The byte at which that row begins.
    pub start: int,
    /// The next free column.
    pub col: int,
}

/// The rows after the first `n` clusters of a line: a cluster that would overflow a
/// row with something in it goes to a fresh row.
pub open spec fn placed(content: Seq<char>, n: int, wrap: int, tab: int) -> Placing
    decreases n,
{
    if n <= 0 {
        Placing { done: Seq::empty(), cells: Seq::empty(), start: 0, col: 0 }
    } else {
        let p = placed(content, n - 1, wrap, tab);
        let off = clusters(content)[n - 1] as int;
        let end = cluster_stop(content, n - 1);
        let g = cluster_text(content, n - 1);
        let q = if p.col + cell_width(g, p.col, tab) > wrap && p.cells.len() > 0 {
            Placing {
                done: p.done.push(
                    RowView {
                        cells: p.cells,
                        byte_start: p.start,
                        byte_end: off,
                        width: p.col,
                        soft_wrapped: true,
                    },
                ),
                cells: Seq::empty(),
                start: off,
                col: 0,
            }
        } else {
            p
        };
        let w = cell_width(g, q.col, tab);
        Placing {
            cells: q.cells.push(
                Cell {
                    byte: off as usize,
                    len: (end - off) as usize,
                    width: w as u16,
                    col: q.col as u16,
                },
            ),
            col: q.col + w,
            ..q
        }
    }
}

/// The rows of a line with the given content.
pub open spec fn rows_of(content: Seq<char>, wrap: int, tab: int) -> Seq<RowView> {
    let p = placed(content, clusters(content).len() as int, wrap, tab);
    p.done.push(
        RowView {
            cells: p.cells,
            byte_start: p.start,
            byte_end: byte_len(content) as int,
            width: p.col,
            soft_wrapped: false,
        },
    )
}

/// A line without its line ending.
pub open spec fn line_content(line: Seq<u8>) -> Seq<char> {
    text_between(line, 0, content_end(line))
}

/// The rows of the given line of a document.
pub open spec fn document_rows(b: Seq<u8>, line: int, wrap: int, tab: int) -> Seq<RowView> {
    rows_of(line_content(line_bytes(b, line)), wrap, tab)
}

/// The cluster beginnings follow one another inside the text.
pub open spec fn clusters_in_order(content: Seq<char>) -> bool {
    let s = clusters(content);
    &&& s.len() == 0 <==> content.len() == 0
    &&& s.len() > 0 ==> s[0] == 0
    &&& forall|i: int|
        0 <= i < s.len() ==> (#[trigger] s[i]) < byte_len(content) && boundary(
            encode_utf8(content),
            s[i] as int,
        )
    &&& forall|i: int, j: int| 0 <= i < j < s.len() ==> s[i] < s[j]
}

/// What holds of the rows at every step of placing: they follow one another without a
/// gap, in bytes and in columns.
pub open spec fn placing_ok(content: Seq<char>, n: int, wrap: int, tab: int) -> bool {
    let p = placed(content, n, wrap, tab);
    let here = if n < clusters(content).len() {
        clusters(content)[n] as int
    } else {
        byte_len(content) as int
    };
    &&& p.cells.len() == 0 <==> n == 0
    &&& 0 <= p.col <= 65535
    &&& p.cells.len() == 0 ==> p.col == 0
    &&& 0 <= p.start <= here
    &&& p.done.len() < most(n, 1)
    &&& p.cells.len() > 0 ==> row_ok(p.cells, p.start, here, p.col)
    &&& forall|i: int| 0 <= i < p.done.len() ==> #[trigger] done_link(p.done, p.start, i)
    &&& p.done.len() > 0 ==> p.done[0].byte_start == 0
    &&& p.done.len() == 0 ==> p.start == 0
}

/// Whether a full row is filled, and the next one begins where it ends.
pub open spec fn done_link(done: Seq<RowView>, start: int, i: int) -> bool {
    let r = done[i];
    &&& r.soft_wrapped
    &&& 0 <= r.byte_start
    &&& 0 <= r.width <= 65535
    &&& row_ok(r.cells, r.byte_start, r.byte_end, r.width)
    &&& r.byte_end == (if i + 1 < done.len() {
        done[i + 1].byte_start
    } else {
        start
    })
}

/// Whether the next cell, or the end of the row, follows right after a cell.
pub open spec fn cell_link(cells: Seq<Cell>, end: int, width: int, k: int) -> bool {
    let c = cells[k];
    &&& c.len > 0
    &&& c.byte + c.len == (if k + 1 < cells.len() {
        cells[k + 1].byte as int
    } else {
        end
    })
    &&& c.col + c.width == (if k + 1 < cells.len() {
        cells[k + 1].col as int
    } else {
        width
    })
}

/// Whether cells fill a row from `start` to `end` in bytes, and from column 0 to `width`.
pub open spec fn row_ok(cells: Seq<Cell>, start: int, end: int, width: int) -> bool {
    &&& cells.len() > 0
    &&& cells[0].byte == start
    &&& cells[0].col == 0
    &&& forall|k: int| 0 <= k < cells.len() ==> #[trigger] cell_link(cells, end, width, k)
}

proof fn lemma_row_ok_push(cells: Seq<Cell>, start: int, mid: int, width: int, c: Cell, end: int)
    requires
        cells.len() > 0 ==> row_ok(cells, start, mid, width),
        cells.len() == 0 ==> start == mid && width == 0,
        c.byte == mid,
        c.col == width,
        c.len == end - mid,
        c.len > 0,
    ensures
        row_ok(cells.push(c), start, end, width + c.width),
{
    let all = cells.push(c);
    assert forall|k: int| 0 <= k < all.len() implies #[trigger] cell_link(
        all,
        end,
        width + c.width,
        k,
    ) by {
        if k < cells.len() {
            assert(cell_link(cells, mid, width, k));
        }
    }
}

/// Placing keeps the rows in order, and never makes more rows than clusters.
pub proof fn lemma_placing_ok(content: Seq<char>, n: int, wrap: int, tab: int)
    requires
        clusters_in_order(content),
        0 <= n <= clusters(content).len(),
        byte_len(content) <= usize::MAX,
        1 <= wrap <= 65535,
        tab >= 1,
    ensures
        placing_ok(content, n, wrap, tab),
    decreases n,
{
    let s = clusters(content);
    if n > 0 {
        lemma_placing_ok(content, n - 1, wrap, tab);
        let p = placed(content, n - 1, wrap, tab);
        let off = s[n - 1] as int;
        let end = cluster_stop(content, n - 1);
        let g = cluster_text(content, n - 1);
        assert(off < end) by {
            if n < s.len() {
                assert(s[n - 1] < s[n]);
            }
        }
        let wraps = p.col + cell_width(g, p.col, tab) > wrap && p.cells.len() > 0;
        let row = RowView {
            cells: p.cells,
            byte_start: p.start,
            byte_end: off,
            width: p.col,
            soft_wrapped: true,
        };
        let q = if wraps {
            Placing { done: p.done.push(row), cells: Seq::empty(), start: off, col: 0 }
        } else {
            p
        };
        let w = cell_width(g, q.col, tab);
        assert(0 <= w <= 65535);
        let c = Cell {
            byte: off as usize,
            len: (end - off) as usize,
            width: w as u16,
            col: q.col as u16,
        };
        lemma_row_ok_push(q.cells, q.start, off, q.col, c, end);
        let r = placed(content, n, wrap, tab);
        assert(r.cells == q.cells.push(c));
        assert forall|i: int| 0 <= i < r.done.len() implies #[trigger] done_link(
            r.done,
            r.start,
            i,
        ) by {
            if i < p.done.len() {
                assert(done_link(p.done, p.start, i));
            }
        }
    }
}

/// A row that is laid out: its cells fill it, or it is the empty row of an empty line.
pub open spec fn row_is_filled(r: RowView) -> bool {
    &&& 0 <= r.byte_start <= r.byte_end
    &&& 0 <= r.width <= 65535
    &&& r.cells.len() == 0 ==> r.byte_start == r.byte_end && r.width == 0
    &&& r.cells.len() > 0 ==> row_ok(r.cells, r.byte_start, r.byte_end, r.width)
}

/// The rows of a line cover its content from end to end, without gap or overlap; only
/// the last one ends the line.
pub open spec fn rows_cover(rows: Seq<RowView>, len: int) -> bool {
    &&& rows.len() > 0
    &&& rows[0].byte_start == 0
    &&& rows.last().byte_end == len
    &&& forall|i: int| 0 <= i < rows.len() ==> #[trigger] row_link(rows, i)
}

/// Whether a row is filled, and ends where the next one begins.
pub open spec fn row_link(rows: Seq<RowView>, i: int) -> bool {
    let r = rows[i];
    &&& row_is_filled(r)
    &&& r.soft_wrapped == (i + 1 < rows.len())
    &&& i + 1 < rows.len() ==> r.byte_end == rows[i + 1].byte_start && r.cells.len() > 0
}

/// Cells of a filled row stay inside it.
pub proof fn lemma_cell_bounds(cells: Seq<Cell>, start: int, end: int, width: int, k: int)
    requires
        row_ok(cells, start, end, width),
        0 <= k < cells.len(),
    ensures
        start <= cells[k].byte,
        cells[k].byte + cells[k].len <= end,
        cells[k].col + cells[k].width <= width,
        forall|j: int| 0 <= j < k ==> (#[trigger] cells[j]).byte + cells[j].len <= cells[k].byte,
        forall|j: int| 0 <= j < k ==> (#[trigger] cells[j]).col + cells[j].width <= cells[k].col,
    decreases cells.len() - k,
{
    lemma_cells_before(cells, start, end, width, k);
    lemma_cells_after(cells, start, end, width, k);
}

proof fn lemma_cells_before(cells: Seq<Cell>, start: int, end: int, width: int, k: int)
    requires
        row_ok(cells, start, end, width),
        0 <= k < cells.len(),
    ensures
        start <= cells[k].byte,
        forall|j: int| 0 <= j < k ==> (#[trigger] cells[j]).byte + cells[j].len <= cells[k].byte,
        forall|j: int| 0 <= j < k ==> (#[trigger] cells[j]).col + cells[j].width <= cells[k].col,
    decreases k,
{
    if k > 0 {
        lemma_cells_before(cells, start, end, width, k - 1);
        assert(cell_link(cells, end, width, k - 1));
    }
}

proof fn lemma_cells_after(cells: Seq<Cell>, start: int, end: int, width: int, k: int)
    requires
        row_ok(cells, start, end, width),
        0 <= k < cells.len(),
    ensures
        cells[k].byte + cells[k].len <= end,
        cells[k].col + cells[k].width <= width,
    decreases cells.len() - k,
{
    assert(cell_link(cells, end, width, k));
    if k + 1 < cells.len() {
        lemma_cells_after(cells, start, end, width, k + 1);
    }
}

/// The rows of a line cover it, and are no more than its bytes (or one).
pub proof fn lemma_rows_cover(content: Seq<char>, wrap: int, tab: int)
    requires
        clusters_in_order(content),
        byte_len(content) <= usize::MAX,
        1 <= wrap <= 65535,
        tab >= 1,
    ensures
        rows_cover(rows_of(content, wrap, tab), byte_len(content) as int),
        1 <= rows_of(content, wrap, tab).len() <= most(byte_len(content) as int, 1),
{
    let n = clusters(content).len() as int;
    lemma_placing_ok(content, n, wrap, tab);
    let p = placed(content, n, wrap, tab);
    let rows = rows_of(content, wrap, tab);
    lemma_cluster_count(content);
    assert forall|i: int| 0 <= i < rows.len() implies #[trigger] row_link(rows, i) by {
        if i < p.done.len() {
            assert(done_link(p.done, p.start, i));
            let r = p.done[i];
            lemma_cell_bounds(r.cells, r.byte_start, r.byte_end, r.width, 0);
        } else if p.cells.len() == 0 {
            assert(content =~= Seq::<char>::empty());
            assert(encode_utf8(content) =~= Seq::<u8>::empty());
        }
    }
}

proof fn lemma_cluster_count(content: Seq<char>)
    requires
        clusters_in_order(content),
    ensures
        clusters(content).len() <= byte_len(content),
{
    let s = clusters(content);
    if s.len() > 0 {
        lemma_cluster_at_least(s, s.len() - 1);
        assert(s[s.len() - 1] < byte_len(content));
    }
}

proof fn lemma_cluster_at_least(s: Seq<usize>, i: int)
    requires
        0 <= i < s.len(),
        forall|i: int, j: int| 0 <= i < j < s.len() ==> s[i] < s[j],
    ensures
        s[i] >= i,
    decreases i,
{
    if i > 0 {
        lemma_cluster_at_least(s, i - 1);
        assert(s[i - 1] < s[i]);
    }
}

/// The display width of a single grapheme cluster at column `col`.
fn grapheme_width(g: &str, col: u16, tab: usize) -> (w: u16)
    requires
        tab >= 1,
    ensures
        w == cell_width(g@, col as int, tab as int),
        g@ != "\t"@ && g@.len() == 1 && printable(g@[0]) ==> columns(g@) == 1,
{
    if same(g, "\t") {
        let reach: usize = tab - (col as usize) % tab;
        (reach % 65536) as u16
    } else {
        (width(g) % 65536) as u16
    }
}

/// The end of the `i`-th cluster.
fn stop_of(content: &str, starts: &Vec<usize>, i: usize) -> (end: usize)
    requires
        starts@ == clusters(content@),
        i < starts@.len(),
        clusters_in_order(content@),
    ensures
        end == cluster_stop(content@, i as int),
        starts@[i as int] < end <= byte_len(content@),
        boundary(encode_utf8(content@), end as int),
{
    proof {
        encode_utf8_valid_utf8(content@);
        lemma_boundary_ends(encode_utf8(content@));
        assert(starts@[i as int] < byte_len(content@));
    }
    if starts.len() - i > 1 {
        assert(starts@[i as int] < starts@[i + 1]);
        starts[i + 1]
    } else {
        byte_length(content)
    }
}

/// The number of rows of a line, without building them.
fn count_rows_by_walk(content: &str, wrap_width: usize, tab_width: usize) -> (rows: usize)
    requires
        1 <= wrap_width <= MAX_WRAP,
        1 <= tab_width,
    ensures
        rows == rows_of(content@, wrap_width as int, tab_width as int).len(),
        clusters_in_order(content@),
        1 <= rows <= most(byte_len(content@) as int, 1),
{
    let wrap: u32 = wrap_width as u32;
    let starts = cluster_starts(content);
    let len: usize = byte_length(content);
    let mut rows: usize = 1;
    let mut col: u16 = 0;
    let mut row_has_cells = false;
    let mut i: usize = 0;
    proof {
        lemma_rows_cover(content@, wrap_width as int, tab_width as int);
    }
    while i < starts.len()
        invariant
            starts@ == clusters(content@),
            clusters_in_order(content@),
            byte_len(content@) <= usize::MAX,
            1 <= wrap_width <= MAX_WRAP,
            1 <= tab_width,
            wrap == wrap_width,
            i <= starts@.len(),
            rows == placed(content@, i as int, wrap as int, tab_width as int).done.len() + 1,
            col == placed(content@, i as int, wrap as int, tab_width as int).col,
            row_has_cells == (placed(
                content@,
                i as int,
                wrap as int,
                tab_width as int,
            ).cells.len() > 0),
        decreases starts@.len() - i,
    {
        proof {
            lemma_placing_ok(content@, i as int, wrap as int, tab_width as int);
            lemma_placing_ok(content@, i + 1, wrap as int, tab_width as int);
        }
        let end: usize = stop_of(content, &starts, i);
        let g = slice(content, starts[i], end);
        assert(g@ == cluster_text(content@, i as int));
        if col as u32 + grapheme_width(g, col, tab_width) as u32 > wrap && row_has_cells {
            rows += 1;
            col = 0;
        }
        // The cluster is always placed on the (possibly fresh) row.
        col = col + grapheme_width(g, col, tab_width);
        row_has_cells = true;
        i += 1;
    }
    rows
}

/// The rows of a line.
pub open spec fn are_rows(rows: Seq<DisplayLine>, spec_rows: Seq<RowView>, line: int) -> bool {
    &&& rows.len() == spec_rows.len()
    &&& forall|i: int|
        0 <= i < rows.len() ==> (#[trigger] rows[i])@ == spec_rows[i] && rows[i].line == line
}

/// Whether a row and its cells begin and end where characters do.
pub open spec fn row_whole(b: Seq<u8>, r: RowView) -> bool {
    &&& boundary(b, r.byte_start)
    &&& boundary(b, r.byte_end)
    &&& cells_whole(b, r.cells)
}

/// Whether cells begin where characters do.
pub open spec fn cells_whole(b: Seq<u8>, cells: Seq<Cell>) -> bool {
    forall|k: int| 0 <= k < cells.len() ==> boundary(b, (#[trigger] cells[k]).byte as int)
}

/// Whether rows and their cells begin and end where characters do.
pub open spec fn rows_whole(b: Seq<u8>, rows: Seq<RowView>) -> bool {
    forall|i: int| 0 <= i < rows.len() ==> row_whole(b, #[trigger] rows[i])
}

proof fn lemma_placed_whole(content: Seq<char>, n: int, wrap: int, tab: int)
    requires
        clusters_in_order(content),
        byte_len(content) <= usize::MAX,
        0 <= n <= clusters(content).len(),
    ensures
        ({
            let b = encode_utf8(content);
            let p = placed(content, n, wrap, tab);
            &&& rows_whole(b, p.done)
            &&& cells_whole(b, p.cells)
            &&& boundary(b, p.start)
        }),
    decreases n,
{
    let b = encode_utf8(content);
    encode_utf8_valid_utf8(content);
    lemma_boundary_ends(b);
    if n > 0 {
        lemma_placed_whole(content, n - 1, wrap, tab);
        let p = placed(content, n - 1, wrap, tab);
        let q = placed(content, n, wrap, tab);
        assert(boundary(b, clusters(content)[n - 1] as int));
        assert forall|i: int| 0 <= i < q.done.len() implies row_whole(b, #[trigger] q.done[i]) by {
            if i < p.done.len() {
                assert(q.done[i] == p.done[i]);
            }
        }
        assert forall|k: int| 0 <= k < q.cells.len() implies boundary(
            b,
            (#[trigger] q.cells[k]).byte as int,
        ) by {
            if k < q.cells.len() - 1 {
                assert(q.cells[k] == p.cells[k]);
            }
        }
    }
}

/// Rows and their cells begin and end where characters do.
pub proof fn lemma_rows_whole(content: Seq<char>, wrap: int, tab: int)
    requires
        clusters_in_order(content),
        byte_len(content) <= usize::MAX,
    ensures
        rows_whole(encode_utf8(content), rows_of(content, wrap, tab)),
{
    let n = clusters(content).len() as int;
    lemma_placed_whole(content, n, wrap, tab);
    encode_utf8_valid_utf8(content);
    lemma_boundary_ends(encode_utf8(content));
}

proof fn lemma_covering_whole(b: Seq<u8>, cells: Seq<Cell>, col: int, k: int)
    requires
        cells_whole(b, cells),
        0 <= k < cells.len(),
    ensures
        boundary(b, cell_covering(cells, col, k)),
    decreases cells.len() - k,
{
    assert(boundary(b, cells[k].byte as int));
    if k + 1 < cells.len() && col >= cells[k].col + cells[k].width {
        lemma_covering_whole(b, cells, col, k + 1);
    }
}

/// A line's content ends where a character does.
pub proof fn lemma_line_end_boundary(b: Seq<u8>, line: int)
    requires
        valid_utf8(b),
        0 <= line < line_count(b),
    ensures
        boundary(b, line_start(b, line) + content_end(line_bytes(b, line))),
{
    let text = line_bytes(b, line);
    lemma_content_end(text);
    lemma_line_start_boundary(b, line);
    lemma_line_start_boundary(b, line + 1);
    lemma_line_starts_grow(b, line, line + 1);
    let e = content_end(text);
    let s = line_start(b, line);
    if e < text.len() {
        assert(b[s + e] == text[e]);
        lemma_boundary_at_ascii(b, s + e);
    } else {
        assert(s + e == line_start(b, line + 1));
    }
}

/// A place on screen is a place where a character begins.
proof fn lemma_place_whole(text: Seq<char>, line: int, rows: Seq<RowView>, i: int, col: int)
    requires
        0 <= line < line_count(encode_utf8(text)),
        rows_whole(encode_utf8(line_content(line_bytes(encode_utf8(text), line))), rows),
        0 <= i < rows.len(),
    ensures
        boundary(
            encode_utf8(text),
            line_start(encode_utf8(text), line) + byte_in_row(rows[i], col),
        ),
{
    let b = encode_utf8(text);
    encode_utf8_valid_utf8(text);
    let whole = line_bytes(b, line);
    lemma_line_start_boundary(b, line);
    lemma_line_start_boundary(b, line + 1);
    lemma_line_starts_grow(b, line, line + 1);
    crate::bytes::lemma_valid_between(b, line_start(b, line), line_start(b, line + 1));
    encode_utf8_decode_utf8(decode_utf8(whole));
    decode_utf8_encode_utf8(whole);
    lemma_line_content(decode_utf8(whole));
    lemma_content_end(whole);
    lemma_line_end_boundary(b, line);
    crate::bytes::lemma_valid_between(whole, 0, content_end(whole));
    decode_utf8_encode_utf8(whole.subrange(0, content_end(whole)));
    let content = encode_utf8(line_content(whole));
    assert(content == whole.subrange(0, content_end(whole)));
    let r = rows[i];
    assert(row_whole(content, r));
    if r.cells.len() > 0 {
        assert(boundary(content, r.cells[r.cells.len() - 1].byte as int));
        lemma_covering_whole(content, r.cells, col, 0);
    }
    let x = byte_in_row(r, col);
    assert(boundary(content, x));
    let s = line_start(b, line);
    if x < content.len() {
        assert(content[x] == whole[x]);
        assert(whole[x] == b[s + x]);
    }
}

fn build_rows(content: &str, line: usize, wrap_width: usize, tab_width: usize) -> (rows: Vec<
    DisplayLine,
>)
    requires
        1 <= wrap_width <= MAX_WRAP,
        1 <= tab_width,
    ensures
        are_rows(rows@, rows_of(content@, wrap_width as int, tab_width as int), line as int),
        clusters_in_order(content@),
        rows_cover(
            rows_of(content@, wrap_width as int, tab_width as int),
            byte_len(content@) as int,
        ),
        rows_whole(
            encode_utf8(content@),
            rows_of(content@, wrap_width as int, tab_width as int),
        ),
        1 <= rows@.len() <= most(byte_len(content@) as int, 1),
        ascii_text(content@) ==> plain_text(content@),
{
    let wrap: u32 = wrap_width as u32;
    let starts = cluster_starts(content);
    let len: usize = byte_length(content);
    let mut lines: Vec<DisplayLine> = Vec::new();
    let mut row = DisplayLine::new(line, 0);
    let mut col: u16 = 0;
    let mut i: usize = 0;
    proof {
        lemma_rows_cover(content@, wrap_width as int, tab_width as int);
        lemma_rows_whole(content@, wrap_width as int, tab_width as int);
    }
    while i < starts.len()
        invariant
            starts@ == clusters(content@),
            clusters_in_order(content@),
            byte_len(content@) <= usize::MAX,
            1 <= wrap_width <= MAX_WRAP,
            1 <= tab_width,
            wrap == wrap_width,
            i <= starts@.len(),
            row.line == line,
            ({
                let p = placed(content@, i as int, wrap as int, tab_width as int);
                &&& are_rows(lines@, p.done, line as int)
                &&& row.cells@ == p.cells
                &&& row.byte_start == p.start
                &&& col == p.col
            }),
            !row.soft_wrapped,
            ascii_text(content@) ==> plain_clusters(content@),
            ascii_text(content@) ==> forall|k: int|
                0 <= k < i ==> columns(#[trigger] cluster_text(content@, k)) == 1,
        decreases starts@.len() - i,
    {
        proof {
            lemma_placing_ok(content@, i as int, wrap as int, tab_width as int);
            lemma_placing_ok(content@, i + 1, wrap as int, tab_width as int);
        }
        let off: usize = starts[i];
        let end: usize = stop_of(content, &starts, i);
        let g = slice(content, off, end);
        assert(g@ == cluster_text(content@, i as int));
        proof {
            if ascii_text(content@) {
                lemma_printable_bytes(content@);
                lemma_plain_cluster(content@, i as int);
                assert(printable(content@[i as int]));
            }
        }
        let ghost p = placed(content@, i as int, wrap as int, tab_width as int);
        let ghost before = lines@;
        // Soft-wrap before placing a cluster that would overflow a non-empty
        // row (a single oversized cluster still gets placed).
        if col as u32 + grapheme_width(g, col, tab_width) as u32 > wrap && row.cells.len() > 0 {
            row.byte_end = off;
            row.soft_wrapped = true;
            row.width = col;
            lines.push(row);
            row = DisplayLine::new(line, off);
            row.soft_wrapped = false;
            col = 0;
            assert forall|k: int| 0 <= k < lines@.len() implies (#[trigger] lines@[k])@
                == placed(content@, i + 1, wrap as int, tab_width as int).done[k]
                && lines@[k].line == line by {
                if k < before.len() {
                    assert(lines@[k] == before[k]);
                }
            }
            assert(row.cells@ =~= Seq::empty());
        }
        let w: u16 = grapheme_width(g, col, tab_width);
        row.cells.push(Cell { byte: off, len: end - off, width: w, col });
        col = col + w;
        i += 1;
    }
    row.byte_end = len;
    row.width = col;
    row.soft_wrapped = false;
    let ghost before = lines@;
    lines.push(row);
    assert forall|k: int| 0 <= k < lines@.len() implies (#[trigger] lines@[k])@ == rows_of(
        content@,
        wrap_width as int,
        tab_width as int,
    )[k] && lines@[k].line == line by {
        if k < before.len() {
            assert(lines@[k] == before[k]);
        }
    }
    lines
}

/// The content of a line is a whole number of characters.
proof fn lemma_line_content(line: Seq<char>)
    ensures
        boundary(encode_utf8(line), content_end(encode_utf8(line))),
        0 <= content_end(encode_utf8(line)) <= encode_utf8(line).len(),
        boundary(encode_utf8(line), 0),
{
    let b = encode_utf8(line);
    encode_utf8_valid_utf8(line);
    lemma_content_end(b);
    lemma_boundary_ends(b);
    if content_end(b) < b.len() {
        lemma_boundary_at_ascii(b, content_end(b));
    }
}

/// A line of the rope, without its line ending.
fn content_of(text: &str) -> (content: &str)
    ensures
        content@ == line_content(encode_utf8(text@)),
        byte_len(content@) == content_end(encode_utf8(text@)),
        byte_len(content@) <= encode_utf8(text@).len(),
{
    let b = text.as_bytes();
    proof {
        lemma_line_content(text@);
    }
    let mut e: usize = b.len();
    assert(b@.take(e as int) =~= b@);
    while e > 0 && (b[e - 1] == 10 || b[e - 1] == 13)
        invariant
            e <= b@.len(),
            content_end(b@) == content_end(b@.take(e as int)),
        decreases e,
    {
        assert(b@.take(e as int).drop_last() =~= b@.take(e - 1));
        e -= 1;
    }
    assert(content_end(b@) == e) by {
        assert(b@.take(e as int).len() == e);
    }
    slice(text, 0, e)
}

/// The display rows of one source line.
fn build_line(rope: &Rope, line: usize, wrap_width: usize, tab_width: usize) -> (rows: Vec<
    DisplayLine,
>)
    requires
        line < line_count(rope_bytes(*rope)),
        1 <= wrap_width <= MAX_WRAP,
        1 <= tab_width,
    ensures
        are_rows(
            rows@,
            document_rows(rope_bytes(*rope), line as int, wrap_width as int, tab_width as int),
            line as int,
        ),
        rows_cover(
            document_rows(rope_bytes(*rope), line as int, wrap_width as int, tab_width as int),
            content_end(line_bytes(rope_bytes(*rope), line as int)),
        ),
        rows_whole(
            encode_utf8(line_content(line_bytes(rope_bytes(*rope), line as int))),
            document_rows(rope_bytes(*rope), line as int, wrap_width as int, tab_width as int),
        ),
        1 <= rows@.len() <= most(line_bytes(rope_bytes(*rope), line as int).len() as int, 1),
        ascii_text(line_content(line_bytes(rope_bytes(*rope), line as int))) ==> plain_text(
            line_content(line_bytes(rope_bytes(*rope), line as int)),
        ),
{
    let text = rope_line(rope, line);
    let content = content_of(text.as_str());
    build_rows(content, line, wrap_width, tab_width)
}

/// The exact display-row count of one source line.
fn count_line_rows(rope: &Rope, line: usize, wrap_width: usize, tab_width: usize) -> (rows: usize)
    requires
        line < line_count(rope_bytes(*rope)),
        1 <= wrap_width <= MAX_WRAP,
        1 <= tab_width,
    ensures
        rows == document_rows(
            rope_bytes(*rope),
            line as int,
            wrap_width as int,
            tab_width as int,
        ).len(),
        1 <= rows <= most(line_bytes(rope_bytes(*rope), line as int).len() as int, 1),
{
    let text = rope_line(rope, line);
    let content = content_of(text.as_str());
    count_rows_by_walk(content, wrap_width, tab_width)
}

/// The exact display-row counts of `n` source lines.
fn count_lines(rope: &Rope, start: usize, n: usize, wrap_width: usize, tab_width: usize) -> (counts:
    Vec<usize>)
    requires
        start + n <= line_count(rope_bytes(*rope)),
        1 <= wrap_width <= MAX_WRAP,
        1 <= tab_width,
    ensures
        counts@ == Seq::new(
            n as nat,
            |i: int|
                document_rows(
                    rope_bytes(*rope),
                    start + i,
                    wrap_width as int,
                    tab_width as int,
                ).len() as usize,
        ),
        forall|i: int|
            0 <= i < n ==> 1 <= (#[trigger] counts@[i]) <= most(
                line_bytes(rope_bytes(*rope), start + i).len() as int,
                1,
            ),
{
    let ghost b = rope_bytes(*rope);
    let lines: usize = rope_len_lines(rope);
    let mut counts: Vec<usize> = Vec::new();
    let mut i: usize = 0;
    while i < n
        invariant
            b == rope_bytes(*rope),
            lines == line_count(b),
            start + n <= lines,
            1 <= wrap_width <= MAX_WRAP,
            1 <= tab_width,
            i <= n,
            counts@.len() == i,
            forall|k: int|
                0 <= k < i ==> (#[trigger] counts@[k]) == document_rows(
                    b,
                    start + k,
                    wrap_width as int,
                    tab_width as int,
                ).len(),
            forall|k: int|
                0 <= k < i ==> 1 <= (#[trigger] counts@[k]) <= most(
                    line_bytes(b, start + k).len() as int,
                    1,
                ),
        decreases n - i,
    {
        counts.push(count_line_rows(rope, start + i, wrap_width, tab_width));
        i += 1;
    }
    assert(counts@ =~= Seq::new(
        n as nat,
        |i: int|
            document_rows(b, start + i, wrap_width as int, tab_width as int).len() as usize,
    ));
    counts
}

/// The sum of the first `n` counts.
pub open spec fn rows_before(counts: Seq<usize>, n: int) -> int
    decreases n,
{
    if n <= 0 {
        0
    } else {
        rows_before(counts, n - 1) + counts[n - 1]
    }
}

/// The rows of all lines.
pub open spec fn total_of(counts: Seq<usize>) -> int {
    rows_before(counts, counts.len() as int)
}

pub proof fn lemma_rows_before(counts: Seq<usize>, i: int, j: int)
    requires
        0 <= i <= j,
    ensures
        0 <= rows_before(counts, i) <= rows_before(counts, j),
    decreases j,
{
    if i < j {
        lemma_rows_before(counts, i, j - 1);
    } else if i > 0 {
        lemma_rows_before(counts, i - 1, i - 1);
    }
}

proof fn lemma_rows_before_same(a: Seq<usize>, b: Seq<usize>, n: int)
    requires
        0 <= n <= a.len(),
        n <= b.len(),
        forall|i: int| 0 <= i < n ==> a[i] == b[i],
    ensures
        rows_before(a, n) == rows_before(b, n),
    decreases n,
{
    if n > 0 {
        lemma_rows_before_same(a, b, n - 1);
    }
}

proof fn lemma_total_concat(a: Seq<usize>, b: Seq<usize>, n: int)
    requires
        0 <= n <= b.len(),
    ensures
        rows_before(a + b, a.len() + n) == total_of(a) + rows_before(b, n),
    decreases n,
{
    if n > 0 {
        lemma_total_concat(a, b, n - 1);
        assert((a + b)[a.len() + n - 1] == b[n - 1]);
    } else {
        lemma_rows_before_same(a + b, a, a.len() as int);
    }
}

/// Lines before `n` take no more rows than they have bytes.
proof fn lemma_rows_fit(b: Seq<u8>, counts: Seq<usize>, n: int)
    requires
        0 <= n <= counts.len(),
        counts.len() <= line_count(b),
        forall|i: int|
            0 <= i < counts.len() ==> (#[trigger] counts[i]) as int <= most(
                line_bytes(b, i).len() as int,
                1,
            ),
    ensures
        n < line_count(b) ==> rows_before(counts, n) <= line_start(b, n),
        rows_before(counts, n) <= b.len() + 1,
    decreases n,
{
    lemma_line_start(b, n);
    if n > 0 {
        lemma_rows_fit(b, counts, n - 1);
        lemma_line_starts_grow(b, n - 1, n);
        assert(line_bytes(b, n - 1).len() == line_start(b, n) - line_start(b, n - 1));
        assert(counts[n - 1] as int <= most(line_bytes(b, n - 1).len() as int, 1));
    }
}

/// The document's display-row geometry for a given wrap width, with rows
/// materialized on demand.
pub struct Layout {
    /// Exact display rows per source line (always ≥ 1).
    row_counts: Vec<usize>,
    /// `chunk_prefix[c]` = total rows of chunks `[0, c)`; the last entry is
    /// the document total.
    chunk_prefix: Vec<usize>,
    total_rows: usize,
    /// Snapshot of the laid-out text, replaced on every build/update. Keeps
    /// byte↔position queries parameterless.
    rope: Rope,
    wrap_width: usize,
    tab_width: usize,
}

/// What a [`Layout`] holds.
#[verifier::ext_equal]
pub struct LayoutView {
    pub counts: Seq<usize>,
    pub text: Seq<char>,
    pub wrap: int,
    pub tab: int,
}

impl LayoutView {
    pub open spec fn bytes(self) -> Seq<u8> {
        encode_utf8(self.text)
    }

    /// The geometry is one that can be asked: there is a line, every line has a row, and
    /// the rows fit the machine.
    pub open spec fn wf(self) -> bool {
        &&& self.counts.len() > 0
        &&& forall|i: int| 0 <= i < self.counts.len() ==> #[trigger] self.counts[i] >= 1
        &&& total_of(self.counts) + self.bytes().len() < usize::MAX
        &&& 1 <= self.wrap <= MAX_WRAP
        &&& 1 <= self.tab <= usize::MAX
    }

    /// The counts are those of the text.
    pub open spec fn fresh(self) -> bool {
        self.counts == line_counts(self.text, self.wrap, self.tab)
    }

    /// The rows of a line.
    pub open spec fn rows(self, line: int) -> Seq<RowView> {
        document_rows(self.bytes(), line, self.wrap, self.tab)
    }

    /// The line that a row belongs to: the first whose rows reach past it, or the last.
    pub open spec fn line_of_row(self, row: int) -> int {
        line_reaching(self.counts, row, 0)
    }

    /// Whether a byte is on a line of printable ASCII, or at its end.
    pub open spec fn on_ascii(self, byte: int) -> bool {
        let b = self.bytes();
        let line = breaks_before(b, byte);
        let content = line_content(line_bytes(b, line));
        &&& 0 <= byte <= b.len()
        &&& ascii_text(content)
        &&& byte <= line_start(b, line) + content.len()
    }

    /// Where a byte is on screen.
    pub open spec fn position(self, byte: int) -> (int, int) {
        let b = self.bytes();
        let at = least(byte, b.len() as int);
        let line = breaks_before(b, at);
        let rel = at - line_start(b, line);
        let rows = self.rows(line);
        let i = row_holding(rows, rel, 0);
        (first_row(self.counts, line) + i, column_of(rows[i].cells, rel, rows[i].width, 0))
    }

    /// The byte nearest to a place on screen.
    pub open spec fn byte_at(self, row: int, col: int) -> int {
        let b = self.bytes();
        let r = least(row, total_of(self.counts) - 1);
        let line = self.line_of_row(r);
        let shown = least(line, line_count(b) - 1);
        let rows = self.rows(shown);
        let i = least(r - rows_before(self.counts, line), rows.len() - 1);
        line_start(b, shown) + byte_in_row(rows[i], col)
    }
}

/// The rows of each line of a text.
pub open spec fn line_counts(text: Seq<char>, wrap: int, tab: int) -> Seq<usize> {
    let b = encode_utf8(text);
    Seq::new(line_count(b) as nat, |l: int| document_rows(b, l, wrap, tab).len() as usize)
}

/// The first row of a line; past the end, the number of rows.
pub open spec fn first_row(counts: Seq<usize>, line: int) -> int {
    if line >= counts.len() {
        total_of(counts)
    } else {
        rows_before(counts, line)
    }
}

/// The first line from `line` on whose rows reach past `row`, or the last line.
pub open spec fn line_reaching(counts: Seq<usize>, row: int, line: int) -> int
    decreases counts.len() - line,
{
    if line + 1 >= counts.len() || row < rows_before(counts, line + 1) {
        line
    } else {
        line_reaching(counts, row, line + 1)
    }
}

/// The first row from `i` on that ends after the byte, or the last row.
pub open spec fn row_holding(rows: Seq<RowView>, rel: int, i: int) -> int
    decreases rows.len() - i,
{
    if i + 1 >= rows.len() || rel < rows[i].byte_end {
        i
    } else {
        row_holding(rows, rel, i + 1)
    }
}

/// The column of the cell, from the `k`-th on, that the byte belongs to; past the cells,
/// the width of the row.
pub open spec fn column_of(cells: Seq<Cell>, rel: int, width: int, k: int) -> int
    decreases cells.len() - k,
{
    if k >= cells.len() {
        width
    } else if rel < cells[k].byte + cells[k].len {
        cells[k].col as int
    } else {
        column_of(cells, rel, width, k + 1)
    }
}

/// The byte of the cell, from the `k`-th on, that covers a column; else the last cell's.
pub open spec fn cell_covering(cells: Seq<Cell>, col: int, k: int) -> int
    decreases cells.len() - k,
{
    if k + 1 >= cells.len() || col < cells[k].col + cells[k].width {
        cells[k].byte as int
    } else {
        cell_covering(cells, col, k + 1)
    }
}

/// The byte of a row nearest to a column: past the content, the end of the line for a
/// hard row, the last cluster for a soft-wrapped one (so that it stays on the row).
pub open spec fn byte_in_row(r: RowView, col: int) -> int {
    if r.cells.len() == 0 {
        r.byte_start
    } else if col >= r.width {
        if r.soft_wrapped {
            r.cells.last().byte as int
        } else {
            r.byte_end
        }
    } else {
        cell_covering(r.cells, col, 0)
    }
}

/// The counts after an edit.
pub open spec fn recounted(v: LayoutView, text: Seq<char>, s: Splice) -> Seq<usize> {
    let b = encode_utf8(text);
    v.counts.take(s.start) + Seq::new(
        s.added as nat,
        |i: int| document_rows(b, s.start + i, v.wrap, v.tab).len() as usize,
    ) + v.counts.skip(s.start + s.removed)
}

/// Whether the lines around an edit kept their content.
pub open spec fn contents_replaced(before: Seq<u8>, after: Seq<u8>, s: Splice) -> bool {
    &&& 0 <= s.start
    &&& 1 <= s.added
    &&& 0 <= s.removed
    &&& s.start + s.removed <= line_count(before)
    &&& s.start + s.added <= line_count(after)
    &&& line_count(before) - s.removed == line_count(after) - s.added
    &&& forall|l: int|
        0 <= l < s.start ==> line_content(#[trigger] line_bytes(before, l)) == line_content(
            line_bytes(after, l),
        )
    &&& forall|l: int|
        s.start + s.added <= l < line_count(after) ==> line_content(#[trigger] line_bytes(after, l))
            == line_content(line_bytes(before, l - s.added + s.removed))
}

/// A layout that was right for the text before an edit is right for the text after it:
/// recounting the touched lines gives what a fresh layout would.
pub proof fn lemma_incremental_layout_is_fresh(v: LayoutView, text: Seq<char>, s: Splice)
    requires
        v.fresh(),
        contents_replaced(v.bytes(), encode_utf8(text), s),
    ensures
        recounted(v, text, s) == line_counts(text, v.wrap, v.tab),
{
    let before = v.bytes();
    let after = encode_utf8(text);
    let r = recounted(v, text, s);
    let fresh = line_counts(text, v.wrap, v.tab);
    assert(r.len() == fresh.len());
    assert forall|l: int| 0 <= l < fresh.len() implies r[l] == fresh[l] by {
        if l < s.start {
            assert(line_content(line_bytes(before, l)) == line_content(line_bytes(after, l)));
        } else if l >= s.start + s.added {
            assert(line_content(line_bytes(after, l)) == line_content(
                line_bytes(before, l - s.added + s.removed),
            ));
        }
    }
    assert(r =~= fresh);
}

proof fn lemma_column_of_cell(cells: Seq<Cell>, start: int, end: int, width: int, k: int, j: int)
    requires
        row_ok(cells, start, end, width),
        0 <= j <= k < cells.len(),
    ensures
        column_of(cells, cells[k].byte as int, width, j) == cells[k].col,
    decreases k - j,
{
    lemma_cell_bounds(cells, start, end, width, k);
    assert(cell_link(cells, end, width, k));
    if j < k {
        assert(cells[j].byte + cells[j].len <= cells[k].byte);
        lemma_column_of_cell(cells, start, end, width, k, j + 1);
    }
}

proof fn lemma_cell_covering(cells: Seq<Cell>, start: int, end: int, width: int, k: int, j: int)
    requires
        row_ok(cells, start, end, width),
        0 <= j <= k < cells.len(),
        cells[k].width > 0,
    ensures
        cell_covering(cells, cells[k].col as int, j) == cells[k].byte,
    decreases k - j,
{
    lemma_cell_bounds(cells, start, end, width, k);
    if j < k {
        assert(cells[j].col + cells[j].width <= cells[k].col);
        lemma_cell_covering(cells, start, end, width, k, j + 1);
    }
}

proof fn lemma_rows_follow(rows: Seq<RowView>, len: int, i: int, j: int)
    requires
        rows_cover(rows, len),
        0 <= i < j < rows.len(),
    ensures
        rows[i].byte_end <= rows[j].byte_start,
    decreases j - i,
{
    assert(row_link(rows, i));
    if i + 1 < j {
        lemma_rows_follow(rows, len, i + 1, j);
        assert(row_link(rows, i + 1));
    }
}

proof fn lemma_row_holding(rows: Seq<RowView>, len: int, rel: int, i: int, j: int)
    requires
        rows_cover(rows, len),
        0 <= j <= i < rows.len(),
        rows[i].byte_start <= rel < rows[i].byte_end,
    ensures
        row_holding(rows, rel, j) == i,
    decreases i - j,
{
    if j < i {
        lemma_rows_follow(rows, len, j, i);
        lemma_row_holding(rows, len, rel, i, j + 1);
    }
}

/// The byte of a visible cluster is shown in that cluster's row and column, and that place
/// leads back to the byte.
proof fn lemma_cell_round_trip(rows: Seq<RowView>, len: int, i: int, k: int)
    requires
        rows_cover(rows, len),
        0 <= i < rows.len(),
        0 <= k < rows[i].cells.len(),
        rows[i].cells[k].width > 0,
    ensures
        ({
            let c = rows[i].cells[k];
            &&& row_holding(rows, c.byte as int, 0) == i
            &&& column_of(rows[i].cells, c.byte as int, rows[i].width, 0) == c.col
            &&& byte_in_row(rows[i], c.col as int) == c.byte
            &&& c.col <= rows[i].width
        }),
{
    let r = rows[i];
    assert(row_link(rows, i));
    lemma_cell_bounds(r.cells, r.byte_start, r.byte_end, r.width, k);
    let c = r.cells[k];
    assert(cell_link(r.cells, r.byte_end, r.width, k));
    lemma_row_holding(rows, len, c.byte as int, i, 0);
    lemma_column_of_cell(r.cells, r.byte_start, r.byte_end, r.width, k, 0);
    lemma_cell_covering(r.cells, r.byte_start, r.byte_end, r.width, k, 0);
}

proof fn lemma_last_row_holds_the_end(rows: Seq<RowView>, len: int, i: int)
    requires
        rows_cover(rows, len),
        0 <= i < rows.len(),
    ensures
        row_holding(rows, len, i) == rows.len() - 1,
    decreases rows.len() - i,
{
    if i + 1 < rows.len() {
        lemma_rows_follow(rows, len, i, rows.len() - 1);
        assert(row_link(rows, rows.len() - 1));
        lemma_last_row_holds_the_end(rows, len, i + 1);
    }
}

proof fn lemma_column_of_end(cells: Seq<Cell>, start: int, end: int, width: int, k: int)
    requires
        row_ok(cells, start, end, width),
        0 <= k <= cells.len(),
    ensures
        column_of(cells, end, width, k) == width,
    decreases cells.len() - k,
{
    if k < cells.len() {
        lemma_cell_bounds(cells, start, end, width, k);
        lemma_column_of_end(cells, start, end, width, k + 1);
    }
}

/// The end of a line is shown after its last cluster, and that place leads back to it.
proof fn lemma_end_round_trip(rows: Seq<RowView>, len: int)
    requires
        rows_cover(rows, len),
    ensures
        ({
            let i = rows.len() - 1;
            &&& row_holding(rows, len, 0) == i
            &&& column_of(rows[i].cells, len, rows[i].width, 0) == rows[i].width
            &&& byte_in_row(rows[i], rows[i].width) == len
        }),
{
    let i = rows.len() - 1;
    let r = rows[i];
    lemma_last_row_holds_the_end(rows, len, 0);
    assert(row_link(rows, i));
    if r.cells.len() > 0 {
        lemma_column_of_end(r.cells, r.byte_start, r.byte_end, r.width, 0);
    }
}

/// Whether a visible cluster begins at a byte of a line, or the line ends there.
pub open spec fn shown_at(rows: Seq<RowView>, rel: int, len: int) -> bool {
    rel == len || exists|i: int, k: int|
        0 <= i < rows.len() && 0 <= k < (#[trigger] rows[i]).cells.len() && (
        #[trigger] rows[i].cells[k]).byte == rel && rows[i].cells[k].width > 0
}

/// Byte and place on screen agree both ways: where a visible cluster begins or a line ends,
/// the place on screen is inside the document and leads back to the byte.
pub proof fn lemma_positions_round_trip(v: LayoutView, byte: int)
    requires
        v.wf(),
        v.fresh(),
        0 <= byte <= v.bytes().len(),
        ({
            let line = breaks_before(v.bytes(), byte);
            let len = byte_len(line_content(line_bytes(v.bytes(), line))) as int;
            &&& rows_cover(v.rows(line), len)
            &&& v.rows(line).len() <= usize::MAX
            &&& shown_at(v.rows(line), byte - line_start(v.bytes(), line), len)
        }),
    ensures
        v.byte_at(v.position(byte).0, v.position(byte).1) == byte,
        0 <= v.position(byte).0 < total_of(v.counts),
        0 <= v.position(byte).1 <= v.rows(breaks_before(v.bytes(), byte))[v.position(byte).0
            - first_row(v.counts, breaks_before(v.bytes(), byte))].width,
{
    let b = v.bytes();
    let line = breaks_before(b, byte);
    lemma_line_of(b, byte);
    lemma_breaks_before(b, 0, byte);
    let rel = byte - line_start(b, line);
    let rows = v.rows(line);
    let len = byte_len(line_content(line_bytes(b, line))) as int;
    let i = row_holding(rows, rel, 0);
    let col = column_of(rows[i].cells, rel, rows[i].width, 0);
    assert(0 <= i < rows.len() && byte_in_row(rows[i], col) == rel && 0 <= col <= rows[i].width) by {
        if rel == len {
            lemma_end_round_trip(rows, len);
            assert(row_link(rows, rows.len() - 1));
        } else {
            let (x, k) = choose|x: int, k: int|
                0 <= x < rows.len() && 0 <= k < (#[trigger] rows[x]).cells.len() && (
                #[trigger] rows[x].cells[k]).byte == rel && rows[x].cells[k].width > 0;
            lemma_cell_round_trip(rows, len, x, k);
        }
    }
    let row = first_row(v.counts, line) + i;
    assert(v.counts[line] == rows.len());
    assert(rows_before(v.counts, line + 1) == rows_before(v.counts, line) + rows.len());
    lemma_rows_before(v.counts, 0, line);
    lemma_rows_before(v.counts, line + 1, v.counts.len() as int);
    lemma_line_reaching(v.counts, row, line, 0);
}

/// Whether a text is printable ASCII of which every character is a cluster of its own.
pub open spec fn plain_clusters(content: Seq<char>) -> bool {
    &&& ascii_text(content)
    &&& clusters(content) == Seq::new(content.len(), |i: int| i as usize)
}

/// Whether a text is printable ASCII of which every character is a cluster of its own, one
/// column wide.
pub open spec fn plain_text(content: Seq<char>) -> bool {
    &&& plain_clusters(content)
    &&& forall|i: int| 0 <= i < content.len() ==> columns(#[trigger] cluster_text(content, i)) == 1
}

/// Printable ASCII takes as many bytes as characters.
proof fn lemma_printable_bytes(content: Seq<char>)
    requires
        ascii_text(content),
    ensures
        byte_len(content) == content.len(),
{
    assert forall|i: int| 0 <= i < content.len() implies (#[trigger] content[i] as u32) < 0x80 by {
        assert(printable(content[i]));
    }
    lemma_ascii_bytes(content);
}

proof fn lemma_plain_text(content: Seq<char>)
    requires
        plain_text(content),
        byte_len(content) <= usize::MAX,
    ensures
        byte_len(content) == content.len(),
        clusters_in_order(content),
        forall|i: int| 0 <= i < content.len() ==> #[trigger] cluster_stop(content, i) == i + 1,
        forall|i: int|
            0 <= i < content.len() ==> #[trigger] cluster_text(content, i) != "\t"@,
{
    lemma_printable_bytes(content);
    let b = encode_utf8(content);
    encode_utf8_valid_utf8(content);
    assert forall|i: int| 0 <= i < content.len() implies #[trigger] cluster_text(content, i)
        != "\t"@ by {
        lemma_plain_cluster(content, i);
    }
    let s = clusters(content);
    assert forall|i: int| 0 <= i < s.len() implies (#[trigger] s[i]) < byte_len(content) && boundary(
        b,
        s[i] as int,
    ) by {
        lemma_plain_cluster(content, i);
    }
}

proof fn lemma_plain_cluster(content: Seq<char>, i: int)
    requires
        plain_clusters(content),
        byte_len(content) <= usize::MAX,
        byte_len(content) == content.len(),
        0 <= i < content.len(),
    ensures
        boundary(encode_utf8(content), i),
        cluster_text(content, i) == seq![content[i]],
        cluster_text(content, i) != "\t"@,
{
    let b = encode_utf8(content);
    encode_utf8_valid_utf8(content);
    assert(printable(content[i]));
    assert(content.take(i) + content.skip(i) =~= content);
    lemma_bytes_concat(content.take(i), content.skip(i));
    assert forall|j: int| 0 <= j < content.take(i).len() implies (#[trigger] content.take(
        i,
    )[j] as u32) < 0x80 by {
        assert(content.take(i)[j] == content[j]);
        assert(printable(content[j]));
    }
    lemma_ascii_bytes(content.take(i));
    let rest = content.skip(i);
    assert(rest =~= seq![content[i]] + content.skip(i + 1));
    lemma_bytes_concat(seq![content[i]], content.skip(i + 1));
    let one = seq![content[i]];
    assert(one.drop_first() =~= Seq::<char>::empty());
    assert(encode_utf8(one.drop_first()) =~= Seq::<u8>::empty());
    assert(encode_utf8(one) =~= encode_scalar(content[i] as u32));
    let c = content[i] as u32;
    assert(encode_scalar(c) =~= seq![leading_byte_width_1(c)]);
    assert(b[i] == leading_byte_width_1(c));
    assert(!is_continuation_byte(((c & 0x7f) as u8))) by (bit_vector)
        requires
            0x20 <= c <= 0x7e,
    ;
    assert(b.subrange(i, i + 1) =~= encode_utf8(seq![content[i]]));
    encode_utf8_decode_utf8(seq![content[i]]);
    assert(cluster_text(content, i) == seq![content[i]]);
    reveal_strlit("\t");
    assert(content[i] != '\t');
}

/// Whether every cell is one byte long and one column wide.
spec fn plain_cells(cells: Seq<Cell>) -> bool {
    forall|k: int| 0 <= k < cells.len() ==> (#[trigger] cells[k]).len == 1 && cells[k].width == 1
}

/// Whether every row is made of plain cells, and fits the width.
spec fn plain_rows(rows: Seq<RowView>, wrap: int) -> bool {
    forall|i: int|
        0 <= i < rows.len() ==> plain_cells((#[trigger] rows[i]).cells) && rows[i].width <= wrap
}

proof fn lemma_plain_placing(content: Seq<char>, n: int, wrap: int, tab: int)
    requires
        plain_text(content),
        byte_len(content) <= usize::MAX,
        0 <= n <= content.len(),
        1 <= wrap <= 65535,
        tab >= 1,
    ensures
        plain_rows(placed(content, n, wrap, tab).done, wrap),
        plain_cells(placed(content, n, wrap, tab).cells),
        0 <= placed(content, n, wrap, tab).col <= wrap,
    decreases n,
{
    if n > 0 {
        lemma_plain_placing(content, n - 1, wrap, tab);
        lemma_plain_text(content);
        let g = cluster_text(content, n - 1);
        assert(cluster_stop(content, n - 1) == n);
        assert(columns(g) == 1 && g != "\t"@);
        assert(clusters(content)[n - 1] == n - 1);
    }
}

proof fn lemma_row_found(rows: Seq<RowView>, len: int, rel: int, i: int)
    requires
        rows_cover(rows, len),
        0 <= i < rows.len(),
        rows[i].byte_start <= rel < len,
    ensures
        ({
            let x = row_holding(rows, rel, i);
            0 <= x < rows.len() && rows[x].byte_start <= rel < rows[x].byte_end
        }),
    decreases rows.len() - i,
{
    assert(row_link(rows, i));
    if i + 1 < rows.len() && rel >= rows[i].byte_end {
        lemma_row_found(rows, len, rel, i + 1);
    }
}

proof fn lemma_cell_found(cells: Seq<Cell>, start: int, end: int, width: int, rel: int, k: int) -> (x: int)
    requires
        row_ok(cells, start, end, width),
        plain_cells(cells),
        0 <= k < cells.len(),
        cells[k].byte <= rel < end,
    ensures
        0 <= x < cells.len(),
        cells[x].byte == rel,
    decreases cells.len() - k,
{
    assert(cell_link(cells, end, width, k));
    if cells[k].byte == rel {
        k
    } else {
        assert(k + 1 < cells.len());
        lemma_cell_found(cells, start, end, width, rel, k + 1)
    }
}

/// In a line of printable ASCII every byte has a place on screen, at most as far right as
/// the document is wide, that leads back to it.
proof fn lemma_plain_positions_round_trip(v: LayoutView, byte: int)
    requires
        v.wf(),
        v.fresh(),
        0 <= byte <= v.bytes().len(),
        plain_text(line_content(line_bytes(v.bytes(), breaks_before(v.bytes(), byte)))),
        byte <= line_start(v.bytes(), breaks_before(v.bytes(), byte)) + line_content(
            line_bytes(v.bytes(), breaks_before(v.bytes(), byte)),
        ).len(),
    ensures
        v.byte_at(v.position(byte).0, v.position(byte).1) == byte,
        0 <= v.position(byte).0 < total_of(v.counts),
        0 <= v.position(byte).1 <= v.wrap,
{
    let b = v.bytes();
    let line = breaks_before(b, byte);
    lemma_line_of(b, byte);
    lemma_breaks_before(b, 0, byte);
    lemma_line_starts_grow(b, line, line + 1);
    let content = line_content(line_bytes(b, line));
    let rel = byte - line_start(b, line);
    let rows = v.rows(line);
    lemma_printable_bytes(content);
    encode_utf8_valid_utf8(v.text);
    lemma_rows_before(v.counts, 0, v.counts.len() as int);
    lemma_line_is_shorter(b, line);
    lemma_plain_text(content);
    lemma_rows_cover(content, v.wrap, v.tab);
    lemma_plain_placing(content, content.len() as int, v.wrap, v.tab);
    assert(plain_rows(rows, v.wrap));
    let i = row_holding(rows, rel, 0);
    if rel < content.len() {
        lemma_row_found(rows, content.len() as int, rel, 0);
        let r = rows[i];
        assert(row_link(rows, i));
        let k = lemma_cell_found(r.cells, r.byte_start, r.byte_end, r.width, rel, 0);
        assert(rows[i].cells[k].byte == rel);
    } else {
        lemma_end_round_trip(rows, content.len() as int);
    }
    lemma_positions_round_trip(v, byte);
}

/// A character below 0x80 is one byte, with its own value.
proof fn lemma_ascii_byte(c: char)
    requires
        (c as u32) < 0x80,
    ensures
        encode_utf8(seq![c]).len() == 1,
        encode_utf8(seq![c])[0] as u32 == c as u32,
{
    let one = seq![c];
    assert(one.drop_first() =~= Seq::<char>::empty());
    assert(encode_utf8(one.drop_first()) =~= Seq::<u8>::empty());
    assert(encode_utf8(one) =~= encode_scalar(c as u32));
    let n = c as u32;
    assert(encode_scalar(n) =~= seq![leading_byte_width_1(n)]);
    assert(((n & 0x7f) as u8) as u32 == n) by (bit_vector)
        requires
            n < 0x80,
    ;
}

/// The bytes of ASCII text are the values of its characters.
pub(crate) proof fn lemma_ascii_values(text: Seq<char>)
    requires
        forall|i: int| 0 <= i < text.len() ==> (#[trigger] text[i] as u32) < 0x80,
    ensures
        encode_utf8(text).len() == text.len(),
        forall|i: int|
            0 <= i < text.len() ==> (#[trigger] encode_utf8(text)[i]) as u32 == text[i] as u32,
    decreases text.len(),
{
    lemma_ascii_bytes(text);
    if text.len() > 0 {
        let rest = text.drop_last();
        let last = seq![text.last()];
        assert(rest + last =~= text);
        lemma_bytes_concat(rest, last);
        assert forall|i: int| 0 <= i < rest.len() implies (#[trigger] rest[i] as u32) < 0x80 by {
            assert(rest[i] == text[i]);
        }
        lemma_ascii_values(rest);
        lemma_ascii_byte(text.last());
        assert forall|i: int| 0 <= i < text.len() implies (#[trigger] encode_utf8(text)[i]) as u32
            == text[i] as u32 by {
            if i < rest.len() {
                assert(encode_utf8(text)[i] == encode_utf8(rest)[i]);
            }
        }
    }
}

/// In a document of ASCII without a carriage return a line holds a line feed only at its
/// end, and the last line none.
proof fn lemma_feeds_end_lines(b: Seq<u8>, line: int, q: int)
    requires
        0 <= line < line_count(b),
        line_start(b, line) <= q < line_start(b, line + 1),
        b[q] == 10,
    ensures
        q + 1 == line_start(b, line + 1),
        line + 1 < line_count(b),
{
    lemma_line_start(b, line);
    lemma_line_start(b, line + 1);
    assert(break_ends_at(b, q + 1));
    lemma_breaks_before(b, line_start(b, line), q);
    assert(breaks_before(b, q + 1) >= line + 1);
    lemma_breaks_before(b, q + 1, b.len() as int);
}

/// In a document of printable ASCII and line feeds every byte is on a line of printable
/// ASCII, so that its place on screen leads back to it.
pub proof fn lemma_ascii_documents(v: LayoutView, byte: int)
    requires
        forall|i: int|
            0 <= i < v.text.len() ==> printable(#[trigger] v.text[i]) || v.text[i] == '\n',
        0 <= byte <= v.bytes().len(),
    ensures
        v.on_ascii(byte),
{
    let b = v.bytes();
    let line = breaks_before(b, byte);
    assert forall|i: int| 0 <= i < v.text.len() implies (#[trigger] v.text[i] as u32) < 0x80 by {
        assert(printable(v.text[i]) || v.text[i] == '\n');
    }
    lemma_ascii_values(v.text);
    lemma_line_of(b, byte);
    lemma_breaks_before(b, 0, byte);
    lemma_line_starts_grow(b, line, line + 1);
    let s = line_start(b, line);
    let e = line_start(b, line + 1);
    let whole = line_bytes(b, line);
    lemma_content_end(whole);
    let ce = content_end(whole);
    let part = v.text.subrange(s, s + ce);
    assert forall|i: int| 0 <= i < part.len() implies (#[trigger] part[i] as u32) < 0x80 by {
        assert(part[i] == v.text[s + i]);
    }
    lemma_ascii_values(part);
    assert(whole.subrange(0, ce) =~= encode_utf8(part)) by {
        assert forall|i: int| 0 <= i < ce implies whole.subrange(0, ce)[i] == encode_utf8(part)[i] by {
            assert(whole[i] == b[s + i]);
            assert(b[s + i] as u32 == v.text[s + i] as u32);
            assert(encode_utf8(part)[i] as u32 == part[i] as u32);
        }
    }
    encode_utf8_decode_utf8(part);
    assert(line_content(whole) == part);
    assert forall|i: int| 0 <= i < part.len() implies printable(#[trigger] part[i]) by {
        assert(part[i] == v.text[s + i]);
        if v.text[s + i] == '\n' {
            assert(b[s + i] as u32 == 10);
            lemma_feeds_end_lines(b, line, s + i);
            assert(i == whole.len() - 1);
            assert(whole[ce - 1] == b[s + i]);
        }
    }
    if ce < whole.len() {
        assert(whole[ce] == b[s + ce]);
        assert(b[s + ce] as u32 == v.text[s + ce] as u32);
        assert(printable(v.text[s + ce]) || v.text[s + ce] == '\n');
        lemma_feeds_end_lines(b, line, s + ce);
    }
}

/// The content of a line is no longer than the document.
proof fn lemma_line_is_shorter(b: Seq<u8>, line: int)
    requires
        valid_utf8(b),
        0 <= line < line_count(b),
    ensures
        byte_len(line_content(line_bytes(b, line))) <= b.len(),
{
    lemma_line_starts_grow(b, line, line + 1);
    let l = line_bytes(b, line);
    lemma_content_end(l);
    lemma_line_start_boundary(b, line);
    lemma_line_start_boundary(b, line + 1);
    lemma_line_end_boundary(b, line);
    let s = line_start(b, line);
    let e = content_end(l);
    crate::bytes::lemma_valid_between(b, s, s + e);
    assert(l.subrange(0, e) =~= b.subrange(s, s + e));
    decode_utf8_encode_utf8(l.subrange(0, e));
}

impl View for Layout {
    type V = LayoutView;

    closed spec fn view(&self) -> LayoutView {
        LayoutView {
            counts: self.row_counts@,
            text: rope_text(self.rope),
            wrap: self.wrap_width as int,
            tab: self.tab_width as int,
        }
    }
}

pub(crate) proof fn lemma_line_reaching(counts: Seq<usize>, row: int, line: int, from: int)
    requires
        0 <= from <= line < counts.len(),
        line + 1 == counts.len() || row < rows_before(counts, line + 1),
        rows_before(counts, line) <= row,
    ensures
        line_reaching(counts, row, from) == line,
    decreases line - from,
{
    if from < line {
        lemma_rows_before(counts, from + 1, line);
        lemma_line_reaching(counts, row, line, from + 1);
    }
}

impl Layout {
    /// The prefix sums are those of the counts.
    pub closed spec fn sums_ok(&self) -> bool {
        let n = self.row_counts@.len() as int;
        let chunks = (n + CHUNK - 1) / CHUNK as int;
        &&& self.total_rows == total_of(self.row_counts@)
        &&& self.chunk_prefix@.len() == chunks + 1
        &&& forall|c: int|
            0 <= c < chunks ==> #[trigger] self.chunk_prefix@[c] == rows_before(
                self.row_counts@,
                c * CHUNK,
            )
        &&& self.chunk_prefix@[chunks] == self.total_rows
    }

    pub open spec fn wf(&self) -> bool {
        self@.wf() && self.sums_ok()
    }

    /// Lay `rope` out, wrapping at `wrap_width` columns with `tab_width` tab
    /// stops. This only *counts* rows; no cells are materialized.
    pub fn build(rope: &Rope, wrap_width: usize, tab_width: usize) -> (layout: Self)
        requires
            wrap_width <= MAX_WRAP,
            2 * rope_bytes(*rope).len() + 2 <= usize::MAX,
        ensures
            layout.wf(),
            layout@ == (LayoutView {
                counts: line_counts(
                    rope_text(*rope),
                    most(wrap_width as int, 1),
                    most(tab_width as int, 1),
                ),
                text: rope_text(*rope),
                wrap: most(wrap_width as int, 1),
                tab: most(tab_width as int, 1),
            }),
            layout@.fresh(),
    {
        let wrap: usize = if wrap_width >= 1 {
            wrap_width
        } else {
            1
        };
        let tab: usize = if tab_width >= 1 {
            tab_width
        } else {
            1
        };
        let ghost b = rope_bytes(*rope);
        let total: usize = rope_len_lines(rope);
        proof {
            lemma_breaks_before(b, 0, b.len() as int);
        }
        let row_counts = count_lines(rope, 0, total, wrap, tab);
        proof {
            assert forall|i: int| 0 <= i < row_counts@.len() implies (#[trigger] row_counts@[i]) as int
                <= most(line_bytes(b, i).len() as int, 1) by {
                assert(line_bytes(b, 0 + i) == line_bytes(b, i));
            }
            lemma_rows_fit(b, row_counts@, row_counts@.len() as int);
            assert(row_counts@ =~= line_counts(rope_text(*rope), wrap as int, tab as int));
            assert forall|i: int| 0 <= i < row_counts@.len() implies #[trigger] row_counts@[i]
                >= 1 by {}
        }
        let (chunk_prefix, total_rows) = prefix_sums(&row_counts);
        Layout {
            row_counts,
            chunk_prefix,
            total_rows,
            rope: rope_clone(rope),
            wrap_width: wrap,
            tab_width: tab,
        }
    }

    /// Recount only the logical lines touched by an edit. `old_line_count`
    /// describes how many cached source lines were replaced; `new_line_count`
    /// describes how many source lines now occupy that span. Another wrap or tab width
    /// recounts everything.
    #[verifier::rlimit(30)]
    pub fn update_after_edit(
        &mut self,
        rope: &Rope,
        wrap_width: usize,
        tab_width: usize,
        start_line: usize,
        old_line_count: usize,
        new_line_count: usize,
    )
        requires
            old(self).wf(),
            wrap_width <= MAX_WRAP,
            total_of(old(self)@.counts) + 2 * rope_bytes(*rope).len() + 2 <= usize::MAX,
            least(start_line as int, line_count(rope_bytes(*rope)) - 1) <= old(self)@.counts.len(),
        ensures
            final(self).wf(),
            final(self)@.text == rope_text(*rope),
            final(self)@.wrap == most(wrap_width as int, 1),
            final(self)@.tab == most(tab_width as int, 1),
            ({
                let s = splice_of(
                    old(self)@.counts.len() as int,
                    line_count(rope_bytes(*rope)),
                    start_line as int,
                    old_line_count as int,
                    new_line_count as int,
                );
                if old(self)@.wrap != final(self)@.wrap || old(self)@.tab != final(self)@.tab {
                    final(self)@.fresh()
                } else {
                    final(self)@.counts == recounted(old(self)@, rope_text(*rope), s)
                }
            }),
    {
        let wrap: usize = if wrap_width >= 1 {
            wrap_width
        } else {
            1
        };
        let tab: usize = if tab_width >= 1 {
            tab_width
        } else {
            1
        };
        if self.wrap_width != wrap || self.tab_width != tab {
            proof {
                lemma_rows_before(self.row_counts@, 0, self.row_counts@.len() as int);
            }
            *self = Self::build(rope, wrap, tab);
            return;
        }
        let ghost b = rope_bytes(*rope);
        let ghost before = self@;
        let total: usize = rope_len_lines(rope);
        proof {
            lemma_breaks_before(b, 0, b.len() as int);
        }
        let cached: usize = self.row_counts.len();
        let (start, removed, added) = clamp_edit(
            cached,
            total,
            start_line,
            old_line_count,
            new_line_count,
        );
        let mut counts = count_lines(rope, start, added, wrap, tab);
        let ghost fresh = counts@;
        let mut tail = self.row_counts.split_off(start);
        let mut kept = tail.split_off(removed);
        let ghost head = self.row_counts@;
        let ghost rest = kept@;
        self.row_counts.append(&mut counts);
        self.row_counts.append(&mut kept);
        proof {
            assert(head =~= before.counts.take(start as int));
            assert(rest =~= before.counts.skip(start + removed));
            assert(self.row_counts@ =~= before.counts.take(start as int) + fresh
                + before.counts.skip(start + removed));
            let s = splice_of(
                cached as int,
                total as int,
                start_line as int,
                old_line_count as int,
                new_line_count as int,
            );
            assert(s.start == start && s.removed == removed && s.added == added);
            assert(self.row_counts@ =~= recounted(before, rope_text(*rope), s));
            lemma_fresh_rows_fit(b, fresh, start as int);
            lemma_spliced_counts(before.counts, fresh, start as int, removed as int);
        }
        let (chunk_prefix, total_rows) = prefix_sums(&self.row_counts);
        self.chunk_prefix = chunk_prefix;
        self.total_rows = total_rows;
        self.rope = rope_clone(rope);
    }

    /// Number of display rows (always ≥ 1).
    pub fn len(&self) -> (n: usize)
        requires
            self.wf(),
        ensures
            n == total_of(self@.counts),
            n >= 1,
    {
        proof {
            lemma_rows_before(self.row_counts@, 0, self.row_counts@.len() - 1);
            assert(self@.counts[self.row_counts@.len() - 1] >= 1);
        }
        self.total_rows
    }

    /// Number of source lines (always ≥ 1).
    pub fn line_total(&self) -> (n: usize)
        requires
            self.wf(),
        ensures
            n == line_count(self@.bytes()),
            n >= 1,
    {
        proof {
            let b = self@.bytes();
            lemma_breaks_before(b, 0, b.len() as int);
        }
        rope_len_lines(&self.rope)
    }

    /// The display rows of one source line; a line past the end stands for the last.
    pub fn line_rows(&self, line: usize) -> (rows: Vec<DisplayLine>)
        requires
            self.wf(),
        ensures
            ({
                let shown = least(line as int, line_count(self@.bytes()) - 1);
                &&& are_rows(rows@, self@.rows(shown), shown)
                &&& rows_cover(
                    self@.rows(shown),
                    content_end(line_bytes(self@.bytes(), shown)),
                )
                &&& rows_whole(
                    encode_utf8(line_content(line_bytes(self@.bytes(), shown))),
                    self@.rows(shown),
                )
                &&& 1 <= rows@.len() <= most(self@.bytes().len() as int, 1)
                &&& ascii_text(line_content(line_bytes(self@.bytes(), shown))) ==> plain_text(
                    line_content(line_bytes(self@.bytes(), shown)),
                )
            }),
    {
        let total: usize = rope_len_lines(&self.rope);
        proof {
            let b = self@.bytes();
            lemma_breaks_before(b, 0, b.len() as int);
        }
        let shown: usize = if line < total {
            line
        } else {
            total - 1
        };
        proof {
            lemma_line_starts_grow(self@.bytes(), shown as int, shown + 1);
        }
        build_line(&self.rope, shown, self.wrap_width, self.tab_width)
    }

    /// First display row of a logical source line. A line at or past the end
    /// of the document maps to the number of rows.
    pub fn first_row_of_line(&self, line: usize) -> (row: usize)
        requires
            self.wf(),
        ensures
            row == first_row(self@.counts, line as int),
    {
        if line >= self.row_counts.len() {
            return self.total_rows;
        }
        let chunk: usize = line / CHUNK;
        proof {
            let n = self.row_counts@.len() as int;
            assert(0 <= chunk < (n + CHUNK - 1) / CHUNK as int);
            assert(self.chunk_prefix@[chunk as int] == rows_before(
                self.row_counts@,
                chunk * CHUNK,
            ));
        }
        let mut row: usize = self.chunk_prefix[chunk];
        let mut l: usize = chunk * CHUNK;
        while l < line
            invariant
                self.wf(),
                l <= line < self.row_counts@.len(),
                row == rows_before(self.row_counts@, l as int),
            decreases line - l,
        {
            proof {
                lemma_rows_before(self.row_counts@, l + 1, self.row_counts@.len() as int);
            }
            row = row + self.row_counts[l];
            l += 1;
        }
        row
    }

    /// `(source line, that line's first global row)` for a display row.
    pub(crate) fn line_at_row(&self, row: usize) -> (at: (usize, usize))
        requires
            self.wf(),
            row < total_of(self@.counts),
        ensures
            at.0 == self@.line_of_row(row as int),
            at.1 == rows_before(self@.counts, at.0 as int),
            at.0 < self@.counts.len(),
            at.1 <= row,
    {
        let lines: usize = self.row_counts.len();
        let ghost n = lines as int;
        let ghost chunks = (n + CHUNK - 1) / CHUNK as int;
        // The last chunk that begins at or before the row.
        let last: usize = self.chunk_prefix.len() - 2;
        let mut chunk: usize = 0;
        assert(self.chunk_prefix@[0] == rows_before(self.row_counts@, 0 * CHUNK));
        while chunk < last && self.chunk_prefix[chunk + 1] <= row
            invariant
                self.wf(),
                n == self.row_counts@.len(),
                chunks == (n + CHUNK - 1) / CHUNK as int,
                last == chunks - 1,
                chunk <= last,
                self.chunk_prefix@.len() == chunks + 1,
                self.chunk_prefix@[chunk as int] == rows_before(
                    self.row_counts@,
                    chunk * CHUNK,
                ),
                self.chunk_prefix@[chunk as int] <= row,
            decreases last - chunk,
        {
            chunk += 1;
            assert(self.chunk_prefix@[chunk as int] == rows_before(
                self.row_counts@,
                chunk * CHUNK,
            ));
        }
        assert(chunk * CHUNK < n);
        let mut line: usize = chunk * CHUNK;
        let mut first: usize = self.chunk_prefix[chunk];
        while line < lines - 1 && row - first >= self.row_counts[line]
            invariant
                self.wf(),
                lines == self.row_counts@.len(),
                line < lines,
                first == rows_before(self.row_counts@, line as int),
                first <= row,
            decreases self.row_counts@.len() - line,
        {
            first = first + self.row_counts[line];
            line += 1;
        }
        proof {
            lemma_line_reaching(self.row_counts@, row as int, line as int, 0);
        }
        (line, first)
    }

    /// The display row with the given index (the last one, past the end), and the
    /// index of its line's first row.
    pub fn row(&self, row: usize) -> (r: DisplayLine)
        requires
            self.wf(),
        ensures
            ({
                let at = least(row as int, total_of(self@.counts) - 1);
                let line = self@.line_of_row(at);
                let shown = least(line, line_count(self@.bytes()) - 1);
                let rows = self@.rows(shown);
                let i = least(at - rows_before(self@.counts, line), rows.len() - 1);
                r@ == rows[i] && r.line == shown
            }),
            r.line < line_count(self@.bytes()),
            row_is_filled(r@),
            row_whole(encode_utf8(line_content(line_bytes(self@.bytes(), r.line as int))), r@),
    {
        let n: usize = self.len();
        let at: usize = if row < n {
            row
        } else {
            n - 1
        };
        let (line, first) = self.line_at_row(at);
        let mut rows = self.line_rows(line);
        let i: usize = if at - first < rows.len() {
            at - first
        } else {
            rows.len() - 1
        };
        proof {
            let shown = least(line as int, line_count(self@.bytes()) - 1);
            lemma_breaks_before(self@.bytes(), 0, self@.bytes().len() as int);
            assert(row_link(self@.rows(shown), i as int));
        }
        rows.swap_remove(i)
    }

    /// Absolute byte offset where a logical source line starts. Lines past the
    /// end of the document map to the last line's start.
    pub fn line_start(&self, line: usize) -> (byte: usize)
        requires
            self.wf(),
        ensures
            byte == line_start(
                self@.bytes(),
                least(line as int, line_count(self@.bytes()) - 1),
            ),
    {
        let total: usize = rope_len_lines(&self.rope);
        proof {
            let b = self@.bytes();
            lemma_breaks_before(b, 0, b.len() as int);
        }
        rope_line_to_byte(
            &self.rope,
            if line < total {
                line
            } else {
                total - 1
            },
        )
    }

    /// Map a rope byte offset to its `(row, display_col)` on screen. Only the
    /// byte's own line is materialized. On a line of printable ASCII the place is inside
    /// the document, and leads back to the byte.
    pub fn byte_to_pos(&self, byte: usize) -> (pos: (usize, u16))
        requires
            self.wf(),
        ensures
            (pos.0 as int, pos.1 as int) == self@.position(byte as int),
            self@.fresh() && self@.on_ascii(byte as int) ==> {
                &&& self@.byte_at(pos.0 as int, pos.1 as int) == byte
                &&& pos.0 < total_of(self@.counts)
                &&& pos.1 <= self@.wrap
            },
    {
        let ghost b = self@.bytes();
        let len: usize = rope_len_bytes(&self.rope);
        let at: usize = if byte < len {
            byte
        } else {
            len
        };
        proof {
            lemma_line_of(b, at as int);
        }
        let line: usize = rope_byte_to_line(&self.rope, at);
        let rel: usize = at - rope_line_to_byte(&self.rope, line);
        let first: usize = self.first_row_of_line(line);
        let rows = self.line_rows(line);
        let ghost spec_rows = self@.rows(line as int);
        let mut i: usize = 0;
        let count: usize = rows.len();
        while i < count - 1 && rel >= rows[i].byte_end
            invariant
                count == rows@.len(),
                are_rows(rows@, spec_rows, line as int),
                i < rows@.len(),
                row_holding(spec_rows, rel as int, 0) == row_holding(
                    spec_rows,
                    rel as int,
                    i as int,
                ),
            decreases rows@.len() - i,
        {
            assert(rows@[i as int]@ == spec_rows[i as int]);
            i += 1;
        }
        assert(rows@[i as int]@ == spec_rows[i as int]);
        assert(row_link(spec_rows, i as int));
        let dl = &rows[i];
        let ghost cells = dl.cells@;
        let mut k: usize = 0;
        let mut col: u16 = dl.width;
        let mut found = false;
        while k < dl.cells.len() && !found
            invariant
                cells == dl.cells@,
                k <= cells.len(),
                row_is_filled(dl@),
                !found ==> col == dl.width && column_of(cells, rel as int, dl.width as int, 0)
                    == column_of(cells, rel as int, dl.width as int, k as int),
                found ==> col == column_of(cells, rel as int, dl.width as int, 0),
            decreases cells.len() - k + (if found {
                0int
            } else {
                1
            }),
        {
            proof {
                lemma_cell_bounds(
                    cells,
                    dl.byte_start as int,
                    dl.byte_end as int,
                    dl.width as int,
                    k as int,
                );
            }
            if rel < dl.cells[k].byte_end() {
                col = dl.cells[k].col;
                found = true;
            } else {
                k += 1;
            }
        }
        proof {
            lemma_rows_before(self.row_counts@, 0, self.row_counts@.len() as int);
            if line < self.row_counts@.len() {
                lemma_rows_before(self.row_counts@, line as int, self.row_counts@.len() as int);
            }
        }
        proof {
            if self@.fresh() && self@.on_ascii(byte as int) {
                lemma_plain_positions_round_trip(self@, byte as int);
            }
        }
        (first + i, col)
    }

    /// Map a `(row, target_col)` back to the nearest rope byte offset. `row` and
    /// `target_col` are clamped into range.
    pub fn pos_to_byte(&self, row: usize, target_col: u16) -> (byte: usize)
        requires
            self.wf(),
        ensures
            byte == self@.byte_at(row as int, target_col as int),
            byte <= self@.bytes().len(),
            boundary(self@.bytes(), byte as int),
    {
        let ghost b = self@.bytes();
        let n: usize = self.len();
        let at: usize = if row < n {
            row
        } else {
            n - 1
        };
        let (line, first) = self.line_at_row(at);
        let rows = self.line_rows(line);
        let ghost shown = least(line as int, line_count(b) - 1);
        let ghost spec_rows = self@.rows(shown);
        let i: usize = if at - first < rows.len() {
            at - first
        } else {
            rows.len() - 1
        };
        assert(rows@[i as int]@ == spec_rows[i as int]);
        assert(row_link(spec_rows, i as int));
        let dl = &rows[i];
        let start: usize = self.line_start(line);
        let offset: usize = row_byte(dl, target_col);
        proof {
            lemma_breaks_before(b, 0, b.len() as int);
            lemma_line_starts_grow(b, shown, shown + 1);
            lemma_content_end(line_bytes(b, shown));
            lemma_rows_end(spec_rows, content_end(line_bytes(b, shown)), i as int);
            lemma_byte_in_row(dl@, target_col as int);
            lemma_place_whole(self@.text, shown, spec_rows, i as int, target_col as int);
        }
        let len: usize = rope_len_bytes(&self.rope);
        start + offset
    }
}

proof fn lemma_rows_end(rows: Seq<RowView>, len: int, i: int)
    requires
        rows_cover(rows, len),
        0 <= i < rows.len(),
    ensures
        rows[i].byte_end <= len,
{
    if i + 1 < rows.len() {
        lemma_rows_follow(rows, len, i, rows.len() - 1);
        assert(row_link(rows, rows.len() - 1));
        assert(row_link(rows, i));
    }
}

proof fn lemma_byte_in_row(r: RowView, col: int)
    requires
        row_is_filled(r),
    ensures
        r.byte_start <= byte_in_row(r, col) <= r.byte_end,
{
    if r.cells.len() > 0 {
        lemma_cell_bounds(r.cells, r.byte_start, r.byte_end, r.width, r.cells.len() - 1);
        if col < r.width {
            lemma_covering_bounds(r.cells, r.byte_start, r.byte_end, r.width, col, 0);
        }
    }
}

proof fn lemma_covering_bounds(
    cells: Seq<Cell>,
    start: int,
    end: int,
    width: int,
    col: int,
    k: int,
)
    requires
        row_ok(cells, start, end, width),
        0 <= k < cells.len(),
    ensures
        start <= cell_covering(cells, col, k) <= end,
    decreases cells.len() - k,
{
    lemma_cell_bounds(cells, start, end, width, k);
    if k + 1 < cells.len() && col >= cells[k].col + cells[k].width {
        lemma_covering_bounds(cells, start, end, width, col, k + 1);
    }
}

/// Counts with some of them replaced: each is at least one, and their sum grows by no
/// more than the new ones.
proof fn lemma_spliced_counts(counts: Seq<usize>, fresh: Seq<usize>, start: int, removed: int)
    requires
        0 <= start,
        0 <= removed,
        start + removed <= counts.len(),
        forall|i: int| 0 <= i < counts.len() ==> #[trigger] counts[i] >= 1,
        forall|i: int| 0 <= i < fresh.len() ==> #[trigger] fresh[i] >= 1,
    ensures
        ({
            let all = counts.take(start) + fresh + counts.skip(start + removed);
            &&& total_of(all) <= total_of(counts) + total_of(fresh)
            &&& forall|i: int| 0 <= i < all.len() ==> #[trigger] all[i] >= 1
        }),
{
    let head = counts.take(start);
    let gone = counts.subrange(start, start + removed);
    let rest = counts.skip(start + removed);
    lemma_total_concat(head + fresh, rest, rest.len() as int);
    lemma_total_concat(head, fresh, fresh.len() as int);
    assert(counts =~= head + gone + rest);
    lemma_total_concat(head + gone, rest, rest.len() as int);
    lemma_total_concat(head, gone, gone.len() as int);
    lemma_rows_before(gone, 0, gone.len() as int);
}

/// New lines take no more rows than the text has bytes.
proof fn lemma_fresh_rows_fit(b: Seq<u8>, counts: Seq<usize>, start: int)
    requires
        0 <= start,
        start + counts.len() <= line_count(b),
        forall|i: int|
            0 <= i < counts.len() ==> (#[trigger] counts[i]) as int <= most(
                line_bytes(b, start + i).len() as int,
                1,
            ),
    ensures
        total_of(counts) <= b.len() + 1,
{
    lemma_fresh_rows_fit_upto(b, counts, start, counts.len() as int);
}

proof fn lemma_fresh_rows_fit_upto(b: Seq<u8>, counts: Seq<usize>, start: int, n: int)
    requires
        0 <= start,
        0 <= n <= counts.len(),
        start + counts.len() <= line_count(b),
        forall|i: int|
            0 <= i < counts.len() ==> (#[trigger] counts[i]) as int <= most(
                line_bytes(b, start + i).len() as int,
                1,
            ),
    ensures
        start + n < line_count(b) ==> rows_before(counts, n) <= line_start(b, start + n) - line_start(
            b,
            start,
        ),
        rows_before(counts, n) <= b.len() + 1,
    decreases n,
{
    lemma_line_starts_grow(b, start, start + n);
    if n > 0 {
        lemma_fresh_rows_fit_upto(b, counts, start, n - 1);
        lemma_line_starts_grow(b, start + n - 1, start + n);
        lemma_line_starts_grow(b, start, start + n - 1);
        assert(line_bytes(b, start + n - 1).len() == line_start(b, start + n) - line_start(
            b,
            start + n - 1,
        ));
        assert(counts[n - 1] as int <= most(line_bytes(b, start + (n - 1)).len() as int, 1));
    }
}

/// The byte of a row nearest to a column.
fn row_byte(dl: &DisplayLine, target_col: u16) -> (byte: usize)
    requires
        row_is_filled(dl@),
    ensures
        byte == byte_in_row(dl@, target_col as int),
{
    if dl.cells.len() == 0 {
        return dl.byte_start;
    }
    if target_col >= dl.width {
        // Past the content: end of line for a hard row, last cluster for a
        // soft-wrapped row (so we stay on this visual row).
        return if dl.soft_wrapped {
            dl.cells[dl.cells.len() - 1].byte()
        } else {
            dl.byte_end
        };
    }
    let mut k: usize = 0;
    let count: usize = dl.cells.len();
    while k < count - 1 && target_col as u32 >= dl.cells[k].col as u32
        + dl.cells[k].width as u32
        invariant
            count == dl.cells@.len(),
            k < count,
            cell_covering(dl.cells@, target_col as int, 0) == cell_covering(
                dl.cells@,
                target_col as int,
                k as int,
            ),
        decreases dl.cells@.len() - k,
    {
        k += 1;
    }
    dl.cells[k].byte()
}

/// The sums of the counts of whole chunks, and of all counts.
fn prefix_sums(counts: &Vec<usize>) -> (sums: (Vec<usize>, usize))
    requires
        counts@.len() > 0,
        total_of(counts@) <= usize::MAX,
    ensures
        ({
            let n = counts@.len() as int;
            let chunks = (n + CHUNK - 1) / CHUNK as int;
            &&& sums.1 == total_of(counts@)
            &&& sums.0@.len() == chunks + 1
            &&& forall|c: int|
                0 <= c < chunks ==> #[trigger] sums.0@[c] == rows_before(counts@, c * CHUNK)
            &&& sums.0@[chunks] == sums.1
        }),
{
    let mut prefix: Vec<usize> = Vec::new();
    prefix.push(0);
    let mut total: usize = 0;
    let mut i: usize = 0;
    let mut fill: usize = 0;
    while i < counts.len()
        invariant
            total_of(counts@) <= usize::MAX,
            i <= counts@.len(),
            total == rows_before(counts@, i as int),
            prefix@.len() >= 1,
            i == (prefix@.len() - 1) * CHUNK + fill,
            fill < CHUNK,
            forall|c: int|
                0 <= c < prefix@.len() ==> #[trigger] prefix@[c] == rows_before(
                    counts@,
                    c * CHUNK,
                ),
        decreases counts@.len() - i,
    {
        proof {
            lemma_rows_before(counts@, i + 1, counts@.len() as int);
        }
        total = total + counts[i];
        i += 1;
        fill += 1;
        if fill == CHUNK {
            prefix.push(total);
            fill = 0;
        }
    }
    if fill != 0 {
        prefix.push(total);
    }
    (prefix, total)
}

} // verus!
