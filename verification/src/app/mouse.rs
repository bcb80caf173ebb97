//! What the mouse does.

use vstd::prelude::*;

use crate::action::Action;
use crate::app::screen::{last_scroll, scroll_end};
use crate::app::{App, AppView, Desk, Menu, Mode, Preset};
use crate::bytes::boundary;
use crate::editor::{floor_boundary, EditorView};
use crate::layout::first_row;
use crate::line_index::least;
use crate::live::{Live, LiveRow, LiveRowView, LiveView};
use crate::markdown::flow::text_of;
use crate::markdown::theme::MarkdownTheme;
use crate::rope::{line_count, line_start};
use crate::strings::same;
use crate::style::{Line, SpanView};
use crate::text::{columns, width};

verus! {

/// What happened with the mouse.
#[derive(Clone, Copy, Debug, PartialEq, Eq, Structural)]
pub enum MouseKind {
    ScrollUp,
    ScrollDown,
    /// The left button went down.
    Press,
    /// The mouse moved with the left button down.
    Drag,
    Other,
}

/// What happened with the mouse, and where.
#[derive(Clone, Copy, Debug, PartialEq, Eq, Structural)]
pub struct MouseInput {
    pub kind: MouseKind,
    pub column: u16,
    pub row: u16,
}

/// The rows that the wheel scrolls by.
pub const WHEEL_ROWS: usize = 3;

/// A number moved up or down by a turn of the wheel.
pub open spec fn wheeled(y: usize, down: bool) -> usize {
    if down {
        y.saturating_add(WHEEL_ROWS)
    } else {
        y.saturating_sub(WHEEL_ROWS)
    }
}

fn turn(y: usize, down: bool) -> (to: usize)
    ensures
        to == wheeled(y, down),
{
    if down {
        y.saturating_add(WHEEL_ROWS)
    } else {
        y.saturating_sub(WHEEL_ROWS)
    }
}

/// The settings popup after a turn of the wheel.
pub open spec fn guide_wheeled(m: Menu, down: bool) -> Menu {
    Menu { guide_scroll: wheeled(m.guide_scroll, down), ..m }
}

fn turn_guide(m: Menu, down: bool) -> (out: Menu)
    ensures
        out == guide_wheeled(m, down),
{
    let mut out = m;
    out.guide_scroll = turn(m.guide_scroll, down);
    out
}

/// Whether a run of a rendered row is the checkbox of a task.
pub open spec fn is_checkbox(span: SpanView, theme: MarkdownTheme) -> bool {
    &&& span.style == theme.task_done || span.style == theme.task_todo
    &&& span.text == "\u{25a0} "@ || span.text == "\u{25a1} "@ || span.text == "\u{25a0}"@
        || span.text == "\u{25a1}"@
}

/// The column of the first checkbox of a rendered row, from its run `k` on.
pub open spec fn checkbox_column(line: Seq<SpanView>, k: int, theme: MarkdownTheme) -> Option<usize>
    decreases line.len() - k,
{
    if k >= line.len() {
        None
    } else if is_checkbox(line[k], theme) {
        Some(columns(text_of(line.take(k))))
    } else {
        checkbox_column(line, k + 1, theme)
    }
}

/// The column of the first checkbox of a rendered row.
fn find_checkbox(line: &Line, theme: &MarkdownTheme) -> (col: Option<usize>)
    ensures
        col == checkbox_column(line@, 0, *theme),
{
    let ghost v = line@;
    let mut before = String::new();
    let mut k: usize = 0;
    assert(v.take(0) =~= Seq::<SpanView>::empty());
    while k < line.spans.len()
        invariant
            k <= line.spans@.len(),
            v == line@,
            before@ == text_of(v.take(k as int)),
            checkbox_column(v, k as int, *theme) == checkbox_column(v, 0, *theme),
        decreases line.spans@.len() - k,
    {
        let span = &line.spans[k];
        assert(v[k as int] == span@);
        let text = span.text.as_str();
        if (span.style == theme.task_done || span.style == theme.task_todo) && (same(
            text,
            "\u{25a0} ",
        ) || same(text, "\u{25a1} ") || same(text, "\u{25a0}") || same(text, "\u{25a1}")) {
            return Some(width(before.as_str()));
        }
        before.append(text);
        assert(v.take(k + 1).drop_last() =~= v.take(k as int));
        k += 1;
    }
    None
}

impl AppView {
    /// Whether a list is open over the document.
    pub open spec fn list_open(self) -> bool {
        self.palette is Some || self.outline is Some || self.diagnostics is Some
            || self.recent_picker is Some
    }

    /// The view stops following the cursor.
    pub open spec fn detached(self) -> AppView {
        self.with_desk(Desk { follow_cursor: false, ..self.desk })
    }

    /// Where a turn of the wheel scrolls to in a view of some rows.
    pub open spec fn wheel_target(self, rows: int, down: bool) -> usize {
        least(
            wheeled(self.desk.scroll_y, down) as int,
            scroll_end(rows, self.desk.height()),
        ) as usize
    }

    /// The wheel was turned: the viewport moves freely; the cursor stays put and the
    /// view stops following it until the next keypress or click.
    #[verifier::opaque]
    pub open spec fn wheel_turned(self, page: Live, down: bool) -> AppView {
        if self.list_open() {
            self
        } else {
            match self.desk.menu {
                Some(m) => self.with_menu(Some(guide_wheeled(m, down))),
                None => if self.desk.mode == Mode::Read {
                    self.scrolled(self.wheel_target(self.desk.preview_rows as int, down))
                } else {
                    self.detached().scrolled(self.wheel_target(page.rows.len() as int, down))
                },
            }
        }
    }

    /// Whether the document takes clicks at a row of the screen.
    pub open spec fn clickable(self, y: u16) -> bool {
        !(self.list_open() || self.prompt is Some || self.desk.menu is Some || self.desk.mode
            == Mode::Read || y >= self.desk.viewport_height)
    }

    /// The row of the source that a row of a page stands for: rows of the source exactly,
    /// and rendered rows by the line that they are known to show, which is close enough,
    /// since the click opens that line as source.
    pub open spec fn source_row(self, page: Live, k: int) -> int {
        match page.rows[k] {
            LiveRowView::Source(row) => row,
            LiveRowView::Shown { block, .. } => first_row(
                self.editor.layout().counts,
                least(page.line_shown(k, block), line_count(self.editor.bytes()) - 1),
            ),
        }
    }

    /// The byte at a place on screen, where there is one that can be clicked.
    pub open spec fn byte_at_screen(self, page: Live, x: u16, y: u16) -> Option<int> {
        if !self.clickable(y) || page.rows.len() == 0 {
            None
        } else {
            let k = least(
                self.desk.scroll_y.saturating_add(y as usize) as int,
                page.rows.len() - 1,
            );
            Some(
                self.editor.layout().byte_at(
                    self.source_row(page, k),
                    (x as usize).saturating_sub(self.desk.left_offset) as int,
                ),
            )
        }
    }

    /// The line of the task whose checkbox is at a place on screen, where there is one.
    pub open spec fn task_at_click(self, page: Live, x: u16, y: u16) -> Option<int> {
        let k = self.desk.scroll_y + y;
        if !self.clickable(y) || k >= page.rows.len() {
            None
        } else {
            match page.rows[k] {
                LiveRowView::Shown { row, .. } => match (
                    checkbox_column(row.line, 0, self.theme),
                    row.source,
                ) {
                    (Some(col), Some(n)) => if col == (x as usize).saturating_sub(
                        self.desk.left_offset,
                    ) && 1 <= n <= line_count(self.editor.bytes()) {
                        Some(n - 1)
                    } else {
                        None
                    },
                    _ => None,
                },
                LiveRowView::Source(_) => None,
            }
        }
    }

    /// The cursor was put somewhere with the mouse.
    pub open spec fn pointed(self, byte: int) -> AppView {
        self.with_editor(self.editor.at(byte).synced().run_ended()).following()
    }

    /// The mouse moved the cursor: the view follows it, and what is typed next is undone
    /// by itself.
    pub open spec fn mouse_moved(self) -> AppView {
        self.with_editor(self.editor.synced().run_ended()).following()
    }

    /// The checkbox of a line was clicked.
    pub open spec fn task_clicked(self, line: int) -> AppView {
        self.with_editor(self.editor.at(line_start(self.editor.bytes(), line))).ran(
            Action::ToggleTask,
        ).0.mouse_moved()
    }

    /// The byte where the button went down is another one.
    pub open spec fn pressed_at(self, byte: Option<usize>) -> AppView {
        self.with_desk(Desk { mouse_press_byte: byte, ..self.desk })
    }

    /// The button went down: on a checkbox, it is ticked or cleared; elsewhere the cursor
    /// is there, and nothing is selected.
    #[verifier::opaque]
    pub open spec fn pressed(self, page: Live, x: u16, y: u16) -> AppView {
        match self.task_at_click(page, x, y) {
            Some(line) => self.task_clicked(line),
            None => match self.byte_at_screen(page, x, y) {
                None => self,
                Some(byte) => {
                    let v = if self.desk.mode == Mode::Visual {
                        self.visual_left()
                    } else {
                        self
                    };
                    v.deselected().pressed_at(Some(byte as usize)).pointed(byte)
                },
            },
        }
    }

    /// The text from a place on is selected.
    pub open spec fn anchored(self, byte: int) -> AppView {
        let b = self.editor.bytes();
        self.with_editor(
            EditorView {
                anchor: Some(floor_boundary(b, least(byte, b.len() as int)) as usize),
                ..self.editor
            },
        )
    }

    /// The mouse was dragged: what is between where the button went down and the mouse is
    /// selected.
    #[verifier::opaque]
    pub open spec fn dragged(self, page: Live, x: u16, y: u16) -> AppView {
        match (self.desk.mouse_press_byte, self.byte_at_screen(page, x, y)) {
            (Some(press), Some(byte)) => {
                let v = if byte != press {
                    // Dragging in the Vim preset behaves like entering Visual mode.
                    if self.desk.preset == Preset::Vim && self.desk.mode == Mode::Normal {
                        self.anchored(press as int).in_mode(Mode::Visual)
                    } else {
                        self.anchored(press as int)
                    }
                } else {
                    self
                };
                v.pointed(byte)
            },
            _ => self,
        }
    }

    /// Something happened with the mouse.
    #[verifier::opaque]
    pub open spec fn moused(self, page: Live, event: MouseInput) -> AppView {
        match event.kind {
            MouseKind::ScrollUp => self.wheel_turned(page, false),
            MouseKind::ScrollDown => self.wheel_turned(page, true),
            MouseKind::Press => self.pressed(page, event.column, event.row),
            MouseKind::Drag => self.dragged(page, event.column, event.row),
            MouseKind::Other => self,
        }
    }
}

impl App {
    /// Whether a list is open over the document.
    fn is_list_open(&self) -> (yes: bool)
        requires
            self.wf(),
        ensures
            yes == self@.list_open(),
    {
        self.palette_open() || self.outline_open() || self.diagnostics_open()
            || self.recent_picker_open()
    }

    /// Let the view stop following the cursor.
    #[verifier::spinoff_prover]
    fn detach(&mut self)
        requires
            old(self).wf(),
        ensures
            final(self).wf(),
            final(self)@ == old(self)@.detached(),
    {
        proof {
            reveal(App::seen);
            reveal(App::wf);
        }
        self.desk.follow_cursor = false;
    }

    /// Wheel scrolling moves the viewport freely; the cursor stays put and the
    /// view stops following it until the next keypress or click.
    #[verifier::spinoff_prover]
    fn scroll_wheel(&mut self, view: &LiveView, down: bool)
        requires
            old(self).wf(),
        ensures
            final(self).wf(),
            final(self)@ == old(self)@.wheel_turned(view@, down),
    {
        proof {
            reveal(AppView::wheel_turned);
        }
        if self.is_list_open() {
            return;
        }
        let desk = self.desk();
        match desk.menu {
            Some(m) => self.set_menu(Some(turn_guide(m, down))),
            None => {
                if desk.mode.is_read() {
                    let to: usize = self.wheel_to(desk.preview_rows, down);
                    self.set_scroll(to);
                } else {
                    let rows: usize = view.rows.len();
                    let to: usize = self.wheel_to(rows, down);
                    self.detach();
                    self.set_scroll(to);
                }
            },
        }
    }

    /// Where a turn of the wheel scrolls to in a view of some rows.
    fn wheel_to(&self, rows: usize, down: bool) -> (to: usize)
        requires
            self.wf(),
        ensures
            to == self@.wheel_target(rows as int, down),
    {
        let desk = self.desk();
        let y: usize = turn(desk.scroll_y, down);
        let max: usize = last_scroll(rows, desk.shown_rows());
        if y < max {
            y
        } else {
            max
        }
    }

    /// Whether the document takes clicks at a row of the screen.
    fn takes_clicks(&self, y: u16) -> (yes: bool)
        requires
            self.wf(),
        ensures
            yes == self@.clickable(y),
    {
        let desk = self.desk();
        !(self.is_list_open() || self.prompt_open() || desk.menu.is_some() || desk.mode.is_read()
            || y as usize >= desk.viewport_height)
    }

    /// The first row of a line of the source.
    #[verifier::spinoff_prover]
    fn row_of_line(&mut self, line: usize) -> (row: usize)
        requires
            old(self).wf(),
        ensures
            final(self).wf(),
            final(self)@ == old(self)@,
            row == first_row(old(self)@.editor.layout().counts, line as int),
    {
        proof {
            reveal(App::seen);
            reveal(App::wf);
        }
        self.editor.layout().first_row_of_line(line)
    }

    /// The row of the source that a row of a page stands for.
    #[verifier::spinoff_prover]
    fn source_row(&mut self, view: &LiveView, k: usize) -> (row: usize)
        requires
            old(self).wf(),
            k < view.rows@.len(),
        ensures
            final(self).wf(),
            final(self)@ == old(self)@,
            row == old(self)@.source_row(view@, k as int),
    {
        assert(view@.rows[k as int] == view.rows@[k as int]@);
        match &view.rows[k] {
            LiveRow::Source(row) => *row,
            LiveRow::Shown { block, .. } => {
                let line: usize = view.line_of_row(k, *block);
                let total: usize = self.line_total();
                let own: usize = self.cursor_line();
                assert(own < total);
                self.row_of_line(
                    if line < total - 1 {
                        line
                    } else {
                        total - 1
                    },
                )
            },
        }
    }

    /// Map a screen position to a buffer byte.
    #[verifier::spinoff_prover]
    pub fn byte_at_screen(&mut self, view: &LiveView, x: u16, y: u16) -> (byte: Option<usize>)
        requires
            old(self).wf(),
        ensures
            final(self).wf(),
            final(self)@ == old(self)@,
            match byte {
                Some(b) => old(self)@.byte_at_screen(view@, x, y) == Some(b as int) && boundary(
                    old(self)@.editor.bytes(),
                    b as int,
                ),
                None => old(self)@.byte_at_screen(view@, x, y) is None,
            },
    {
        if !self.takes_clicks(y) || view.rows.len() == 0 {
            return None;
        }
        let desk = self.desk();
        let at: usize = desk.scroll_y.saturating_add(y as usize);
        let k: usize = if at < view.rows.len() - 1 {
            at
        } else {
            view.rows.len() - 1
        };
        let row: usize = self.source_row(view, k);
        let col: usize = (x as usize).saturating_sub(desk.left_offset);
        let byte: usize = self.byte_at(row, col as u16);
        Some(byte)
    }

    /// The line of the task whose checkbox is at a place on screen, where there is one.
    #[verifier::spinoff_prover]
    fn task_at(&self, view: &LiveView, x: u16, y: u16) -> (line: Option<usize>)
        requires
            self.wf(),
        ensures
            match line {
                Some(l) => self@.task_at_click(view@, x, y) == Some(l as int) && l < line_count(
                    self@.editor.bytes(),
                ),
                None => self@.task_at_click(view@, x, y) is None,
            },
    {
        if !self.takes_clicks(y) {
            return None;
        }
        let desk = self.desk();
        let count: usize = view.rows.len();
        assert(view@.rows.len() == count);
        let k: usize = match desk.scroll_y.checked_add(y as usize) {
            Some(k) => k,
            None => {
                return None;
            },
        };
        if k >= count {
            return None;
        }
        assert(view@.rows[k as int] == view.rows@[k as int]@);
        let total: usize = self.line_total();
        match &view.rows[k] {
            LiveRow::Shown { row, .. } => {
                let found = find_checkbox(&row.line, self.theme());
                match (found, row.source) {
                    (Some(col), Some(n)) => {
                        if col == (x as usize).saturating_sub(desk.left_offset) && 1 <= n && n
                            <= total {
                            Some(n - 1)
                        } else {
                            None
                        }
                    },
                    _ => None,
                }
            },
            LiveRow::Source(_) => None,
        }
    }

    /// Go to the beginning of a line.
    #[verifier::spinoff_prover]
    fn go_to_line(&mut self, line: usize)
        requires
            old(self).wf(),
            line < line_count(old(self)@.editor.bytes()),
        ensures
            final(self).wf(),
            final(self)@ == old(self)@.with_editor(
                old(self)@.editor.at(line_start(old(self)@.editor.bytes(), line as int)),
            ),
    {
        proof {
            reveal(App::seen);
            reveal(App::wf);
        }
        let byte: usize = self.editor.line_begin(line);
        self.editor.place_cursor(byte);
    }

    /// Take note that the mouse moved the cursor.
    #[verifier::spinoff_prover]
    fn after_mouse_move(&mut self)
        requires
            old(self).wf(),
        ensures
            final(self).wf(),
            final(self)@ == old(self)@.mouse_moved(),
    {
        proof {
            reveal(App::seen);
            reveal(App::wf);
        }
        self.editor.sync_goal();
        self.editor.break_run();
        self.desk.follow_cursor = true;
    }

    /// The byte nearest to a place in the editing view.
    #[verifier::spinoff_prover]
    fn byte_at(&mut self, row: usize, col: u16) -> (byte: usize)
        requires
            old(self).wf(),
        ensures
            final(self).wf(),
            final(self)@ == old(self)@,
            byte == old(self)@.editor.layout().byte_at(row as int, col as int),
            boundary(old(self)@.editor.bytes(), byte as int),
    {
        proof {
            reveal(App::seen);
            reveal(App::wf);
        }
        self.editor.layout().pos_to_byte(row, col)
    }

    /// Put the cursor somewhere with the mouse.
    #[verifier::spinoff_prover]
    fn point(&mut self, byte: usize)
        requires
            old(self).wf(),
            boundary(old(self)@.editor.bytes(), byte as int),
        ensures
            final(self).wf(),
            final(self)@ == old(self)@.pointed(byte as int),
    {
        proof {
            reveal(App::seen);
            reveal(App::wf);
        }
        self.editor.place_cursor(byte);
        self.editor.sync_goal();
        self.editor.break_run();
        self.desk.follow_cursor = true;
    }

    /// Keep where the button went down.
    #[verifier::spinoff_prover]
    fn set_press(&mut self, byte: Option<usize>)
        requires
            old(self).wf(),
        ensures
            final(self).wf(),
            final(self)@ == old(self)@.pressed_at(byte),
    {
        proof {
            reveal(App::seen);
            reveal(App::wf);
        }
        self.desk.mouse_press_byte = byte;
    }

    /// Select the text from a place on.
    #[verifier::spinoff_prover]
    fn anchor_at(&mut self, byte: usize)
        requires
            old(self).wf(),
        ensures
            final(self).wf(),
            final(self)@ == old(self)@.anchored(byte as int),
    {
        proof {
            reveal(App::seen);
            reveal(App::wf);
        }
        let place: usize = self.editor.clamp_place(byte);
        self.editor.set_anchor(Some(place));
    }

    #[verifier::spinoff_prover]
    fn mouse_down(&mut self, view: &LiveView, x: u16, y: u16)
        requires
            old(self).wf(),
        ensures
            final(self).wf(),
            final(self)@ == old(self)@.pressed(view@, x, y),
    {
        proof {
            reveal(AppView::pressed);
        }
        if let Some(line) = self.task_at(view, x, y) {
            self.go_to_line(line);
            let _ = self.run_action(Action::ToggleTask);
            self.after_mouse_move();
            return;
        }
        let byte: usize = match self.byte_at_screen(view, x, y) {
            Some(b) => b,
            None => {
                return;
            },
        };
        if self.desk().mode == Mode::Visual {
            self.exit_visual();
        }
        self.deselect();
        self.set_press(Some(byte));
        self.point(byte);
    }

    #[verifier::spinoff_prover]
    fn mouse_drag(&mut self, view: &LiveView, x: u16, y: u16)
        requires
            old(self).wf(),
        ensures
            final(self).wf(),
            final(self)@ == old(self)@.dragged(view@, x, y),
    {
        proof {
            reveal(AppView::dragged);
        }
        let desk = self.desk();
        let press: usize = match desk.mouse_press_byte {
            Some(p) => p,
            None => {
                return;
            },
        };
        let byte: usize = match self.byte_at_screen(view, x, y) {
            Some(b) => b,
            None => {
                return;
            },
        };
        if byte != press {
            self.anchor_at(press);
            if desk.preset == Preset::Vim && desk.mode == Mode::Normal {
                self.set_mode(Mode::Visual);
            }
        }
        self.point(byte);
    }

    /// Handle something that happened with the mouse on a page.
    #[verifier::spinoff_prover]
    pub fn handle_mouse(&mut self, view: &LiveView, event: MouseInput)
        requires
            old(self).wf(),
        ensures
            final(self).wf(),
            final(self)@ == old(self)@.moused(view@, event),
    {
        proof {
            reveal(AppView::moused);
        }
        match event.kind {
            MouseKind::ScrollUp => self.scroll_wheel(view, false),
            MouseKind::ScrollDown => self.scroll_wheel(view, true),
            MouseKind::Press => self.mouse_down(view, event.column, event.row),
            MouseKind::Drag => self.mouse_drag(view, event.column, event.row),
            MouseKind::Other => {},
        }
    }
}

} // verus!
