//! A cache of materialized lines: the display rows of lines that were asked for lately.

use vstd::prelude::*;
use vstd::utf8::*;

use crate::layout::{
    are_rows, contents_replaced, line_content, row_is_filled, row_link, row_whole, rows_before,
    rows_whole, total_of, Cell, DisplayLine, Layout, LayoutView, RowView,
};
use crate::line_index::{least, Splice};
use crate::rope::{line_bytes, line_count};

verus! {

/// Materialized-line cache cap. Eviction is clear-all: re-materializing a
/// line is cheap and bursty access (a viewport, a cursor) is local.
pub const ROW_CACHE_LINES: usize = 1024;

/// Lifetime materialization counters plus a snapshot of what is currently cached.
#[derive(Clone, Copy, Debug, PartialEq, Eq, Structural)]
pub struct LayoutStats {
    /// Display rows materialized since the layout was created (cumulative).
    pub rows_built: u64,
    /// Cells materialized since the layout was created (cumulative).
    pub cells_built: u64,
    /// Display rows currently held by the materialization cache (snapshot).
    pub rows_live: u64,
}

/// A line that was materialized.
pub struct CachedLine {
    pub line: usize,
    pub rows: Vec<DisplayLine>,
}

/// Materialized lines.
pub struct RowCache {
    lines: Vec<CachedLine>,
    rows_built: u64,
    cells_built: u64,
}

/// The rows of the first `n` lines of a cache.
pub open spec fn rows_held(lines: Seq<CachedLine>, n: int) -> int
    decreases n,
{
    if n <= 0 {
        0
    } else {
        rows_held(lines, n - 1) + lines[n - 1].rows@.len()
    }
}

/// The cells of the first `n` rows.
pub open spec fn cells_in(rows: Seq<DisplayLine>, n: int) -> int
    decreases n,
{
    if n <= 0 {
        0
    } else {
        cells_in(rows, n - 1) + rows[n - 1].cells@.len()
    }
}

/// The cells of rows, as far as they can be counted.
pub open spec fn cells_capped(rows: Seq<DisplayLine>) -> u64 {
    let n = cells_in(rows, rows.len() as int);
    if n <= u64::MAX {
        n as u64
    } else {
        u64::MAX
    }
}

/// Whether rows are laid out, and begin and end where characters of the content do.
pub open spec fn rows_fine(content: Seq<u8>, rows: Seq<RowView>) -> bool {
    &&& rows.len() >= 1
    &&& rows_whole(content, rows)
    &&& forall|i: int| 0 <= i < rows.len() ==> row_is_filled(#[trigger] rows[i])
}

/// Whether a cached line is that of a layout.
pub open spec fn cached_right(c: CachedLine, v: LayoutView) -> bool {
    let line = c.line as int;
    &&& line < line_count(v.bytes())
    &&& are_rows(c.rows@, v.rows(line), line)
    &&& rows_fine(encode_utf8(line_content(line_bytes(v.bytes(), line))), v.rows(line))
}

/// Whether cached lines are those of a layout.
pub open spec fn all_right(lines: Seq<CachedLine>, v: LayoutView) -> bool {
    forall|i: int| 0 <= i < lines.len() ==> cached_right(#[trigger] lines[i], v)
}

/// Whether a line is cached.
pub open spec fn is_cached(lines: Seq<CachedLine>, line: int) -> bool {
    exists|i: int| 0 <= i < lines.len() && (#[trigger] lines[i]).line == line
}

/// Whether a line keeps its rows over an edit: it lies before the edit, or, where the edit
/// keeps the number of lines, behind it.
pub open spec fn unaffected(line: int, s: Splice) -> bool {
    line < s.start || (s.removed == s.added && line >= s.start + s.added)
}

/// The lines among the first `n` that keep their rows over an edit.
pub open spec fn kept(lines: Seq<CachedLine>, s: Splice, n: int) -> Seq<CachedLine>
    decreases n,
{
    if n <= 0 {
        Seq::empty()
    } else if unaffected(lines[n - 1].line as int, s) {
        kept(lines, s, n - 1).push(lines[n - 1])
    } else {
        kept(lines, s, n - 1)
    }
}

/// The lines that are kept over an edit are right for the text after it.
pub proof fn lemma_kept_lines_are_right(
    lines: Seq<CachedLine>,
    before: LayoutView,
    after: LayoutView,
    s: Splice,
    n: int,
)
    requires
        0 <= n <= lines.len(),
        all_right(lines, before),
        before.wrap == after.wrap,
        before.tab == after.tab,
        contents_replaced(before.bytes(), after.bytes(), s),
    ensures
        all_right(kept(lines, s, n), after),
        kept(lines, s, n).len() <= n,
    decreases n,
{
    if n > 0 {
        lemma_kept_lines_are_right(lines, before, after, s, n - 1);
        let c = lines[n - 1];
        let l = c.line as int;
        if unaffected(l, s) {
            assert(cached_right(c, before));
            let old_line = line_bytes(before.bytes(), l);
            let new_line = line_bytes(after.bytes(), l);
            if l < s.start {
                assert(line_content(old_line) == line_content(
                    new_line,
                ));
            } else {
                assert(line_content(new_line) == line_content(
                    line_bytes(before.bytes(), l - s.added + s.removed),
                ));
            }
            assert(before.rows(l) == after.rows(l));
            assert(cached_right(c, after));
        }
    }
}

/// A copy of a row.
fn copy_row(row: &DisplayLine) -> (copy: DisplayLine)
    ensures
        copy@ == row@,
        copy.line == row.line,
{
    let mut cells: Vec<Cell> = Vec::new();
    let mut i: usize = 0;
    while i < row.cells.len()
        invariant
            i <= row.cells@.len(),
            cells@ == row.cells@.take(i as int),
        decreases row.cells@.len() - i,
    {
        cells.push(row.cells[i]);
        i += 1;
        assert(cells@ =~= row.cells@.take(i as int));
    }
    assert(cells@ =~= row.cells@);
    DisplayLine {
        cells,
        line: row.line,
        byte_start: row.byte_start,
        byte_end: row.byte_end,
        width: row.width,
        soft_wrapped: row.soft_wrapped,
    }
}

impl RowCache {
    /// The lines that are held.
    pub closed spec fn lines(&self) -> Seq<CachedLine> {
        self.lines@
    }

    pub closed spec fn rows_built(&self) -> u64 {
        self.rows_built
    }

    pub closed spec fn cells_built(&self) -> u64 {
        self.cells_built
    }

    /// The cache holds no more than it may, and what it holds is right for a layout.
    pub open spec fn wf(&self, v: LayoutView) -> bool {
        self.lines().len() <= ROW_CACHE_LINES && all_right(self.lines(), v)
    }

    /// A cache of nothing.
    pub fn new() -> (cache: Self)
        ensures
            cache.lines() == Seq::<CachedLine>::empty(),
            cache.rows_built() == 0,
            cache.cells_built() == 0,
            forall|v: LayoutView| cache.wf(v),
    {
        RowCache { lines: Vec::new(), rows_built: 0, cells_built: 0 }
    }

    /// Hold nothing any more.
    pub fn clear(&mut self)
        ensures
            final(self).lines() == Seq::<CachedLine>::empty(),
            final(self).rows_built() == old(self).rows_built(),
            final(self).cells_built() == old(self).cells_built(),
    {
        self.lines = Vec::new();
    }

    /// The counters, and the rows that are held.
    pub fn stats(&self) -> (stats: LayoutStats)
        ensures
            stats.rows_built == self.rows_built(),
            stats.cells_built == self.cells_built(),
            stats.rows_live == (if rows_held(self.lines(), self.lines().len() as int) <= u64::MAX {
                rows_held(self.lines(), self.lines().len() as int)
            } else {
                u64::MAX as int
            }),
    {
        let mut live: u64 = 0;
        let mut i: usize = 0;
        while i < self.lines.len()
            invariant
                i <= self.lines@.len(),
                rows_held(self.lines@, i as int) >= 0,
                live == (if rows_held(self.lines@, i as int) <= u64::MAX {
                    rows_held(self.lines@, i as int)
                } else {
                    u64::MAX as int
                }),
            decreases self.lines@.len() - i,
        {
            live = live.saturating_add(self.lines[i].rows.len() as u64);
            i += 1;
        }
        LayoutStats { rows_built: self.rows_built, cells_built: self.cells_built, rows_live: live }
    }

    /// The place of a line in the cache.
    fn place_of(&self, line: usize) -> (place: Option<usize>)
        ensures
            match place {
                Some(i) => i < self.lines().len() && self.lines()[i as int].line == line,
                None => !is_cached(self.lines(), line as int),
            },
    {
        let mut i: usize = 0;
        while i < self.lines.len()
            invariant
                i <= self.lines@.len(),
                forall|k: int| 0 <= k < i ==> (#[trigger] self.lines@[k]).line != line,
            decreases self.lines@.len() - i,
        {
            if self.lines[i].line == line {
                return Some(i);
            }
            i += 1;
        }
        None
    }

    /// The display rows of one source line of a layout, a line past the end standing for
    /// the last: materialized only where they are not held. Holding lines, or dropping them
    /// when there are too many, never changes the answer.
    pub fn line_rows(&mut self, layout: &Layout, line: usize) -> (rows: &Vec<DisplayLine>)
        requires
            old(self).wf(layout@),
            layout.wf(),
        ensures
            final(self).wf(layout@),
            ({
                let shown = least(line as int, line_count(layout@.bytes()) - 1);
                &&& are_rows(rows@, layout@.rows(shown), shown)
                &&& rows_fine(
                    encode_utf8(line_content(line_bytes(layout@.bytes(), shown))),
                    layout@.rows(shown),
                )
                &&& is_cached(old(self).lines(), shown) ==> final(self).lines() == old(self).lines()
                    && final(self).rows_built() == old(self).rows_built()
                    && final(self).cells_built() == old(self).cells_built()
                &&& !is_cached(old(self).lines(), shown) ==> {
                    &&& final(self).lines().len() == (if old(self).lines().len()
                        >= ROW_CACHE_LINES {
                        1
                    } else {
                        old(self).lines().len() + 1
                    })
                    &&& final(self).lines().last().line == shown
                    &&& final(self).rows_built() == old(self).rows_built().saturating_add(
                        rows@.len() as u64,
                    )
                    &&& final(self).cells_built() == old(self).cells_built().saturating_add(
                        cells_capped(rows@),
                    )
                }
            }),
    {
        let count: usize = layout.line_total();
        let shown: usize = if line < count {
            line
        } else {
            count - 1
        };
        match self.place_of(shown) {
            Some(i) => {
                assert(cached_right(self.lines@[i as int], layout@));
                return &self.lines[i].rows;
            },
            None => {},
        }
        let rows = layout.line_rows(shown);
        proof {
            let spec_rows = layout@.rows(shown as int);
            assert forall|i: int| 0 <= i < spec_rows.len() implies row_is_filled(
                #[trigger] spec_rows[i],
            ) by {
                assert(row_link(spec_rows, i));
            }
        }
        if self.lines.len() >= ROW_CACHE_LINES {
            self.lines = Vec::new();
        }
        let ghost before = self.lines@;
        self.rows_built = self.rows_built.saturating_add(rows.len() as u64);
        self.cells_built = self.cells_built.saturating_add(count_cells(&rows));
        self.lines.push(CachedLine { line: shown, rows });
        proof {
            assert(all_right(before, layout@));
            assert(cached_right(self.lines@.last(), layout@));
            assert forall|i: int| 0 <= i < self.lines@.len() implies cached_right(
                #[trigger] self.lines@[i],
                layout@,
            ) by {
                if i < before.len() {
                    assert(self.lines@[i] == before[i]);
                }
            }
        }
        let last: usize = self.lines.len() - 1;
        &self.lines[last].rows
    }

    /// The display row with the given index (the last one, past the end) of a layout.
    pub fn row(&mut self, layout: &Layout, row: usize) -> (r: DisplayLine)
        requires
            old(self).wf(layout@),
            layout.wf(),
        ensures
            final(self).wf(layout@),
            ({
                let at = least(row as int, total_of(layout@.counts) - 1);
                let line = layout@.line_of_row(at);
                let shown = least(line, line_count(layout@.bytes()) - 1);
                let rows = layout@.rows(shown);
                let i = least(at - rows_before(layout@.counts, line), rows.len() - 1);
                r@ == rows[i] && r.line == shown
            }),
            r.line < line_count(layout@.bytes()),
            row_is_filled(r@),
            row_whole(encode_utf8(line_content(line_bytes(layout@.bytes(), r.line as int))), r@),
    {
        let n: usize = layout.len();
        let at: usize = if row < n {
            row
        } else {
            n - 1
        };
        let (line, first) = layout.line_at_row(at);
        let rows = self.line_rows(layout, line);
        let i: usize = if at - first < rows.len() {
            at - first
        } else {
            rows.len() - 1
        };
        copy_row(&rows[i])
    }

    /// Drop the lines whose rows an edit may have changed: those that it touched, or, where
    /// it changed the number of lines, every line from its start on.
    pub fn forget_edited(&mut self, start: usize, removed: usize, added: usize)
        ensures
            final(self).lines() == kept(
                old(self).lines(),
                Splice { start: start as int, removed: removed as int, added: added as int },
                old(self).lines().len() as int,
            ),
            final(self).lines().len() <= old(self).lines().len(),
            final(self).rows_built() == old(self).rows_built(),
            final(self).cells_built() == old(self).cells_built(),
    {
        let ghost s = Splice { start: start as int, removed: removed as int, added: added as int };
        let ghost all = self.lines@;
        let mut i: usize = 0;
        let mut n: usize = 0;
        let count: usize = self.lines.len();
        assert(kept(all, s, 0) + all.skip(0) =~= all);
        while n < count
            invariant
                i <= n <= count,
                count == all.len(),
                s == (Splice {
                    start: start as int,
                    removed: removed as int,
                    added: added as int,
                }),
                kept(all, s, n as int).len() == i,
                self.lines@ == kept(all, s, n as int) + all.skip(n as int),
                self.rows_built() == old(self).rows_built(),
                self.cells_built() == old(self).cells_built(),
            decreases count - n,
        {
            let line: usize = self.lines[i].line;
            let ghost prior = kept(all, s, n as int);
            assert(self.lines@[i as int] == all[n as int]);
            let keep = line < start || (removed == added && line - start >= added);
            if keep {
                assert(kept(all, s, n + 1) =~= prior.push(all[n as int]));
                assert(prior.push(all[n as int]) + all.skip(n + 1) =~= prior + all.skip(n as int));
                i += 1;
            } else {
                let _ = self.lines.remove(i);
                assert(self.lines@ =~= prior + all.skip(n + 1));
            }
            n += 1;
        }
        assert(self.lines@ =~= kept(all, s, count as int));
    }
}

/// The cells of rows.
fn count_cells(rows: &Vec<DisplayLine>) -> (n: u64)
    ensures
        n == cells_capped(rows@),
{
    let mut n: u64 = 0;
    let mut i: usize = 0;
    while i < rows.len()
        invariant
            i <= rows@.len(),
            cells_in(rows@, i as int) >= 0,
            n == (if cells_in(rows@, i as int) <= u64::MAX {
                cells_in(rows@, i as int)
            } else {
                u64::MAX as int
            }),
        decreases rows@.len() - i,
    {
        n = n.saturating_add(rows[i].cells.len() as u64);
        i += 1;
    }
    n
}

} // verus!
