//! The viewport: what part of the document is shown, and where the cursor is in it.

use vstd::prelude::*;

use crate::app::{App, AppView, Desk};
use crate::editor::EditorView;
use crate::layout::MAX_WRAP;
use crate::line_index::least;
use crate::live::{Live, LiveView};
use crate::rope::line_count;

verus! {

impl Desk {
    /// The rows that are shown: one at least.
    pub open spec fn height(self) -> int {
        if self.viewport_height == 0 {
            1
        } else {
            self.viewport_height as int
        }
    }

    /// The rows that are shown: one at least.
    pub fn shown_rows(self) -> (rows: usize)
        ensures
            rows == self.height(),
            rows >= 1,
    {
        if self.viewport_height == 0 {
            1
        } else {
            self.viewport_height
        }
    }

    /// The rows that are kept between the cursor and the edge.
    pub open spec fn margin(self) -> int {
        least(self.scrolloff as int, (self.height() - 1) / 2)
    }
}

/// The last row that a view of some rows can be scrolled to.
pub open spec fn scroll_end(rows: int, height: int) -> int {
    if rows < height {
        0
    } else {
        rows - height
    }
}

/// The width that text is wrapped at in a viewport.
pub open spec fn wrap_of(width: usize) -> usize {
    if width == 0 {
        1
    } else if width > MAX_WRAP {
        MAX_WRAP
    } else {
        width
    }
}

/// A scroll position from which a row is shown, with a margin, in a view of some rows.
pub open spec fn scrolled_to(y: int, row: int, margin: int, height: int, rows: int) -> int {
    let up = if row < y + margin {
        if row < margin {
            0
        } else {
            row - margin
        }
    } else {
        y
    };
    let down = if row + margin >= up + height {
        row + margin + 1 - height
    } else {
        up
    };
    least(down, scroll_end(rows, height))
}

/// Scrolling to a row shows it, where the view has it.
pub proof fn lemma_scrolling_shows_the_row(y: int, row: int, margin: int, height: int, rows: int)
    requires
        0 <= y,
        0 <= row < rows,
        height >= 1,
        0 <= margin <= (height - 1) / 2,
    ensures
        0 <= scrolled_to(y, row, margin, height, rows),
        scrolled_to(y, row, margin, height, rows) <= row < scrolled_to(
            y,
            row,
            margin,
            height,
            rows,
        ) + height,
{
}

impl AppView {
    /// The viewport has a size.
    #[verifier::opaque]
    pub open spec fn sized(self, width: usize, height: usize) -> AppView {
        self.with_editor(EditorView { wrap_width: wrap_of(width), ..self.editor }).with_desk(
            Desk { viewport_height: height, ..self.desk },
        )
    }

    /// The view is scrolled so that the cursor stays visible with a margin.
    #[verifier::opaque]
    pub open spec fn scrolled_to_cursor(self, page: Live) -> AppView {
        self.scrolled(
            scrolled_to(
                self.desk.scroll_y as int,
                self.cursor_row(page),
                self.desk.margin(),
                self.desk.height(),
                page.rows.len() as int,
            ) as usize,
        )
    }

    /// The row of a page that the cursor is in.
    pub open spec fn cursor_row(self, page: Live) -> int {
        let l = self.editor.layout();
        page.screen_row(l.counts, l.position(self.editor.cursor.byte as int).0)
    }

    /// The view is not scrolled past its end.
    #[verifier::opaque]
    pub open spec fn scroll_clamped(self, page: Live) -> AppView {
        self.scrolled(
            least(
                self.desk.scroll_y as int,
                scroll_end(page.rows.len() as int, self.desk.height()),
            ) as usize,
        )
    }
}

/// The last row that a view of some rows can be scrolled to.
pub fn last_scroll(rows: usize, height: usize) -> (y: usize)
    ensures
        y == scroll_end(rows as int, height as int),
{
    if rows < height {
        0
    } else {
        rows - height
    }
}

/// A scroll position from which a row is shown.
fn scroll_for(y: usize, row: usize, margin: usize, height: usize, rows: usize) -> (to: usize)
    requires
        height >= 1,
        margin <= (height - 1) / 2,
    ensures
        to == scrolled_to(y as int, row as int, margin as int, height as int, rows as int),
{
    let up: usize = if row < y || row - y < margin {
        row.saturating_sub(margin)
    } else {
        y
    };
    let reach: u128 = row as u128 + margin as u128;
    let down: usize = if reach >= up as u128 + height as u128 {
        (reach + 1 - height as u128) as usize
    } else {
        up
    };
    let max: usize = last_scroll(rows, height);
    if down < max {
        down
    } else {
        max
    }
}

impl App {
    /// Record the editor area size.
    #[verifier::spinoff_prover]
    pub fn set_viewport(&mut self, width: usize, height: usize)
        requires
            old(self).wf(),
        ensures
            final(self).wf(),
            final(self)@ == old(self)@.sized(width, height),
    {
        proof {
            reveal(App::seen);
            reveal(App::wf);
            reveal(AppView::sized);
        }
        let wrap: usize = if width == 0 {
            1
        } else if width > MAX_WRAP {
            MAX_WRAP
        } else {
            width
        };
        self.editor.set_wrap_width(wrap);
        self.desk.viewport_height = height;
    }

    /// Record where the UI drew the content's left edge (margin plus gutter),
    /// so mouse clicks can subtract it.
    #[verifier::spinoff_prover]
    pub fn set_left_offset(&mut self, width: usize)
        requires
            old(self).wf(),
        ensures
            final(self).wf(),
            final(self)@ == old(self)@.with_desk((Desk { left_offset: width, ..old(self)@.desk })),
    {
        proof {
            reveal(App::seen);
            reveal(App::wf);
        }
        self.desk.left_offset = width;
    }

    /// Record how many rows the preview has.
    #[verifier::spinoff_prover]
    pub fn set_preview_rows(&mut self, rows: usize)
        requires
            old(self).wf(),
        ensures
            final(self).wf(),
            final(self)@ == old(self)@.with_desk((Desk { preview_rows: rows, ..old(self)@.desk })),
    {
        proof {
            reveal(App::seen);
            reveal(App::wf);
        }
        self.desk.preview_rows = rows;
    }

    /// Where the cursor is in the source as it is laid out: `(row, column)`.
    #[verifier::spinoff_prover]
    fn cursor_place(&mut self) -> (place: (usize, u16))
        requires
            old(self).wf(),
        ensures
            final(self).wf(),
            final(self)@ == old(self)@,
            (place.0 as int, place.1 as int) == old(self)@.editor.layout().position(
                old(self)@.editor.cursor.byte as int,
            ),
    {
        proof {
            reveal(App::seen);
            reveal(App::wf);
        }
        let byte: usize = self.editor.cursor().byte;
        self.editor.layout().byte_to_pos(byte)
    }

    /// Where a row of the source is shown on a page.
    #[verifier::spinoff_prover]
    fn row_on_page(&mut self, view: &LiveView, row: usize) -> (k: usize)
        requires
            old(self).wf(),
        ensures
            final(self).wf(),
            final(self)@ == old(self)@,
            k == view@.screen_row(old(self)@.editor.layout().counts, row as int),
    {
        proof {
            reveal(App::seen);
            reveal(App::wf);
        }
        view.screen_row(self.editor.layout(), row)
    }

    /// Where the cursor is on a page: `(column, row)`.
    #[verifier::spinoff_prover]
    pub fn cursor_screen(&mut self, view: &LiveView) -> (place: (u16, usize))
        requires
            old(self).wf(),
        ensures
            final(self).wf(),
            final(self)@ == old(self)@,
            place.1 == old(self)@.cursor_row(view@),
            place.0 == old(self)@.editor.layout().position(
                old(self)@.editor.cursor.byte as int,
            ).1,
    {
        let (row, col) = self.cursor_place();
        let k: usize = self.row_on_page(view, row);
        (col, k)
    }

    /// Scroll the view so the cursor stays visible with a scrolloff margin. (Read mode
    /// scrolls itself.)
    #[verifier::spinoff_prover]
    pub fn scroll_to_cursor(&mut self, view: &LiveView)
        requires
            old(self).wf(),
        ensures
            final(self).wf(),
            final(self)@ == old(self)@.scrolled_to_cursor(view@),
    {
        proof {
            reveal(AppView::scrolled_to_cursor);
        }
        let (_, row) = self.cursor_screen(view);
        let rows: usize = view.rows.len();
        let desk = self.desk();
        let height: usize = desk.shown_rows();
        let half: usize = (height - 1) / 2;
        let margin: usize = if desk.scrolloff < half {
            desk.scrolloff
        } else {
            half
        };
        let to: usize = scroll_for(desk.scroll_y, row, margin, height, rows);
        self.set_scroll(to);
    }

    /// Clamp the free-scrolled viewport to the content (used while wheel
    /// scrolling has detached the view from the cursor).
    #[verifier::spinoff_prover]
    pub fn clamp_scroll(&mut self, view: &LiveView)
        requires
            old(self).wf(),
        ensures
            final(self).wf(),
            final(self)@ == old(self)@.scroll_clamped(view@),
    {
        proof {
            reveal(AppView::scroll_clamped);
        }
        let rows: usize = view.rows.len();
        let desk = self.desk();
        let max: usize = last_scroll(rows, desk.shown_rows());
        let to: usize = if desk.scroll_y < max {
            desk.scroll_y
        } else {
            max
        };
        self.set_scroll(to);
    }

    /// `(1-based line, 1-based display column)` for the status bar.
    #[verifier::spinoff_prover]
    pub fn cursor_line_col(&mut self) -> (place: (usize, usize))
        requires
            old(self).wf(),
        ensures
            final(self).wf(),
            final(self)@ == old(self)@,
            place.0 == old(self)@.editor.cursor_line() + 1,
            place.1 == old(self)@.editor.layout().position(
                old(self)@.editor.cursor.byte as int,
            ).1 + 1,
    {
        let line: usize = self.cursor_line();
        let (_, col) = self.cursor_place();
        (line + 1, col as usize + 1)
    }

    /// The line of the cursor.
    #[verifier::spinoff_prover]
    pub fn cursor_line(&self) -> (line: usize)
        requires
            self.wf(),
        ensures
            line == self@.editor.cursor_line(),
            line < line_count(self@.editor.bytes()),
            line < usize::MAX,
    {
        proof {
            reveal(App::seen);
            reveal(App::wf);
        }
        let count: usize = self.editor.line_count();
        let line: usize = self.editor.cursor_line();
        assert(line < count);
        line
    }
}

/// What is in sight already, with the margin, is not scrolled to; and scrolling goes no
/// further than it has to.
pub proof fn lemma_scrolling_is_least(y: int, row: int, margin: int, height: int, rows: int)
    requires
        0 <= y <= scroll_end(rows, height),
        0 <= row < rows,
        height >= 1,
        0 <= margin <= (height - 1) / 2,
    ensures
        ({
            let to = scrolled_to(y, row, margin, height, rows);
            &&& y + margin <= row < y + height - margin ==> to == y
            &&& row < y + margin ==> to == if row < margin {
                0
            } else {
                row - margin
            }
            &&& row >= y + height - margin && row + margin < rows ==> to == row + margin + 1 - height
            &&& row >= y + height - margin && row + margin >= rows ==> to == scroll_end(rows, height)
        }),
{
}

} // verus!
