//! What the keys do: global shortcuts, and those of each keybinding preset.

use vstd::prelude::*;

use crate::action::Action;
use crate::app::{App, AppView, Effect, EffectView, Mode, Preset};
use crate::editor::Motion;
use crate::line_input::{Key, KeyCode};
use crate::line_index::least;
use crate::matches::{SearchKey, SearchOptions};
use crate::strings::opt_str;

verus! {

/// The motion of a navigation key.
pub open spec fn motion_of(code: KeyCode) -> Option<Motion> {
    match code {
        KeyCode::Left => Some(Motion::Left),
        KeyCode::Right => Some(Motion::Right),
        KeyCode::Up => Some(Motion::Up),
        KeyCode::Down => Some(Motion::Down),
        KeyCode::Home => Some(Motion::LineStart),
        KeyCode::End => Some(Motion::LineEnd),
        KeyCode::PageUp => Some(Motion::PageUp),
        KeyCode::PageDown => Some(Motion::PageDown),
        _ => None,
    }
}

/// The motion of a navigation key.
fn navigation_motion(code: KeyCode) -> (motion: Option<Motion>)
    ensures
        motion == motion_of(code),
{
    match code {
        KeyCode::Left => Some(Motion::Left),
        KeyCode::Right => Some(Motion::Right),
        KeyCode::Up => Some(Motion::Up),
        KeyCode::Down => Some(Motion::Down),
        KeyCode::Home => Some(Motion::LineStart),
        KeyCode::End => Some(Motion::LineEnd),
        KeyCode::PageUp => Some(Motion::PageUp),
        KeyCode::PageDown => Some(Motion::PageDown),
        _ => None,
    }
}

/// The motion of a key in Vim's normal and visual modes.
pub open spec fn vim_motion_of(code: KeyCode) -> Option<Motion> {
    match code {
        KeyCode::Char(c) => if c == 'h' {
            Some(Motion::Left)
        } else if c == 'j' {
            Some(Motion::Down)
        } else if c == 'k' {
            Some(Motion::Up)
        } else if c == 'l' {
            Some(Motion::Right)
        } else if c == '0' {
            Some(Motion::LineStart)
        } else if c == '$' {
            Some(Motion::LineEnd)
        } else if c == 'w' {
            Some(Motion::WordForward)
        } else if c == 'b' {
            Some(Motion::WordBack)
        } else if c == 'G' {
            Some(Motion::DocEnd)
        } else {
            None
        },
        _ => motion_of(code),
    }
}

/// The motion of a key in Vim's normal and visual modes.
fn vim_motion(code: KeyCode) -> (motion: Option<Motion>)
    ensures
        motion == vim_motion_of(code),
{
    match code {
        KeyCode::Char(c) => if c == 'h' {
            Some(Motion::Left)
        } else if c == 'j' {
            Some(Motion::Down)
        } else if c == 'k' {
            Some(Motion::Up)
        } else if c == 'l' {
            Some(Motion::Right)
        } else if c == '0' {
            Some(Motion::LineStart)
        } else if c == '$' {
            Some(Motion::LineEnd)
        } else if c == 'w' {
            Some(Motion::WordForward)
        } else if c == 'b' {
            Some(Motion::WordBack)
        } else if c == 'G' {
            Some(Motion::DocEnd)
        } else {
            None
        },
        _ => navigation_motion(code),
    }
}

/// The command of a global shortcut: Ctrl and a letter, or a function key.
pub open spec fn global_action(key: Key) -> Option<Action> {
    match key.code {
        KeyCode::F(n) => if n == 1 {
            Some(Action::CommandPalette)
        } else if n == 2 {
            Some(Action::Outline)
        } else if n == 12 {
            Some(Action::SaveAs)
        } else {
            None
        },
        KeyCode::Char(c) => if !key.ctrl() {
            None
        } else if c == 'q' {
            Some(Action::Quit)
        } else if (c == 's' || c == 'S') && key.shift {
            Some(Action::SaveAs)
        } else if c == 's' {
            Some(Action::Save)
        } else if c == 'g' {
            Some(Action::Settings)
        } else if (c == 'o' || c == 'O') && key.shift {
            Some(Action::Outline)
        } else if (c == 'p' || c == 'P') && key.shift {
            Some(Action::CommandPalette)
        } else if c == 'p' {
            Some(Action::TogglePreview)
        } else if c == 'l' {
            Some(Action::CyclePreset)
        } else if c == 'b' {
            Some(Action::ToggleCursor)
        } else {
            None
        },
        _ => None,
    }
}

/// The command of a global shortcut.
fn global_shortcut(key: Key) -> (action: Option<Action>)
    ensures
        action == global_action(key),
{
    match key.code {
        KeyCode::F(n) => if n == 1 {
            Some(Action::CommandPalette)
        } else if n == 2 {
            Some(Action::Outline)
        } else if n == 12 {
            Some(Action::SaveAs)
        } else {
            None
        },
        KeyCode::Char(c) => if !key.is_ctrl() {
            None
        } else if c == 'q' {
            Some(Action::Quit)
        } else if (c == 's' || c == 'S') && key.shift {
            Some(Action::SaveAs)
        } else if c == 's' {
            Some(Action::Save)
        } else if c == 'g' {
            Some(Action::Settings)
        } else if (c == 'o' || c == 'O') && key.shift {
            Some(Action::Outline)
        } else if (c == 'p' || c == 'P') && key.shift {
            Some(Action::CommandPalette)
        } else if c == 'p' {
            Some(Action::TogglePreview)
        } else if c == 'l' {
            Some(Action::CyclePreset)
        } else if c == 'b' {
            Some(Action::ToggleCursor)
        } else {
            None
        },
        _ => None,
    }
}

/// What a key with Ctrl asks for: a command, a motion, or nothing.
pub enum Chord {
    Run(Action),
    Go(Motion),
    Nothing,
}

/// What Ctrl and a key ask for in the standard preset.
pub open spec fn standard_chord(key: Key) -> Chord {
    match key.code {
        KeyCode::Char(c) => if c == 'a' {
            Chord::Run(Action::SelectAll)
        } else if c == 'c' {
            Chord::Run(Action::Copy)
        } else if c == 'x' {
            Chord::Run(Action::Cut)
        } else if c == 'v' {
            Chord::Run(Action::Paste)
        } else if c == 'z' && key.shift {
            Chord::Run(Action::Redo)
        } else if c == 'z' {
            Chord::Run(Action::Undo)
        } else if c == 'y' {
            Chord::Run(Action::Redo)
        } else if c == 'f' {
            Chord::Run(Action::Find)
        } else {
            Chord::Nothing
        },
        KeyCode::Left => Chord::Go(Motion::WordBack),
        KeyCode::Right => Chord::Go(Motion::WordForward),
        KeyCode::Home => Chord::Go(Motion::DocStart),
        KeyCode::End => Chord::Go(Motion::DocEnd),
        _ => Chord::Nothing,
    }
}

/// What Ctrl and a key ask for in the standard preset.
fn chord_in_standard(key: Key) -> (chord: Chord)
    ensures
        chord == standard_chord(key),
{
    match key.code {
        KeyCode::Char(c) => if c == 'a' {
            Chord::Run(Action::SelectAll)
        } else if c == 'c' {
            Chord::Run(Action::Copy)
        } else if c == 'x' {
            Chord::Run(Action::Cut)
        } else if c == 'v' {
            Chord::Run(Action::Paste)
        } else if c == 'z' && key.shift {
            Chord::Run(Action::Redo)
        } else if c == 'z' {
            Chord::Run(Action::Undo)
        } else if c == 'y' {
            Chord::Run(Action::Redo)
        } else if c == 'f' {
            Chord::Run(Action::Find)
        } else {
            Chord::Nothing
        },
        KeyCode::Left => Chord::Go(Motion::WordBack),
        KeyCode::Right => Chord::Go(Motion::WordForward),
        KeyCode::Home => Chord::Go(Motion::DocStart),
        KeyCode::End => Chord::Go(Motion::DocEnd),
        _ => Chord::Nothing,
    }
}

/// What Ctrl and a letter ask for in the nano and emacs presets.
pub open spec fn modeless_chord(preset: Preset, code: KeyCode) -> Chord {
    match code {
        KeyCode::Char(c) => if c == 'z' {
            Chord::Run(Action::Undo)
        } else if preset == Preset::Nano {
            // ^F find, plus ^W — nano's native "Where Is" (Emacs keeps
            // C-f as forward-char and gets find on M-s).
            if c == 'f' || c == 'w' {
                Chord::Run(Action::Find)
            } else if c == 'k' {
                Chord::Run(Action::Cut)
            } else if c == 'u' {
                Chord::Run(Action::Paste)
            } else if c == 'o' {
                Chord::Run(Action::Save)
            } else {
                Chord::Nothing
            }
        } else if preset == Preset::Emacs {
            // C-b and C-p are global toggles (cursor shape / preview), so
            // they never arrive here — backward-char and previous-line are
            // available on the arrow keys.
            if c == 'a' {
                Chord::Go(Motion::LineStart)
            } else if c == 'e' {
                Chord::Go(Motion::LineEnd)
            } else if c == 'f' {
                Chord::Go(Motion::Right)
            } else if c == 'n' {
                Chord::Go(Motion::Down)
            } else if c == 'w' {
                Chord::Run(Action::Cut)
            } else if c == 'y' {
                Chord::Run(Action::Paste)
            } else {
                Chord::Nothing
            }
        } else {
            Chord::Nothing
        },
        _ => Chord::Nothing,
    }
}

/// What Ctrl and a letter ask for in the nano and emacs presets.
fn chord_in_modeless(preset: Preset, code: KeyCode) -> (chord: Chord)
    ensures
        chord == modeless_chord(preset, code),
{
    match code {
        KeyCode::Char(c) => if c == 'z' {
            Chord::Run(Action::Undo)
        } else if preset == Preset::Nano {
            if c == 'f' || c == 'w' {
                Chord::Run(Action::Find)
            } else if c == 'k' {
                Chord::Run(Action::Cut)
            } else if c == 'u' {
                Chord::Run(Action::Paste)
            } else if c == 'o' {
                Chord::Run(Action::Save)
            } else {
                Chord::Nothing
            }
        } else if preset == Preset::Emacs {
            if c == 'a' {
                Chord::Go(Motion::LineStart)
            } else if c == 'e' {
                Chord::Go(Motion::LineEnd)
            } else if c == 'f' {
                Chord::Go(Motion::Right)
            } else if c == 'n' {
                Chord::Go(Motion::Down)
            } else if c == 'w' {
                Chord::Run(Action::Cut)
            } else if c == 'y' {
                Chord::Run(Action::Paste)
            } else {
                Chord::Nothing
            }
        } else {
            Chord::Nothing
        },
        _ => Chord::Nothing,
    }
}

/// A scroll position moved by some rows, within bounds.
pub open spec fn scroll_stepped(y: int, down: bool, rows: int, max: int) -> int {
    let to = if down {
        y + rows
    } else {
        y - rows
    };
    if to < 0 {
        0
    } else {
        least(to, max)
    }
}

/// A scroll position moved by some rows, within bounds.
fn step_scroll(y: usize, down: bool, rows: usize, max: usize) -> (to: usize)
    ensures
        to == scroll_stepped(y as int, down, rows as int, max as int),
{
    if down {
        if y >= max || rows >= max - y {
            max
        } else {
            y + rows
        }
    } else if y < rows {
        0
    } else if y - rows > max {
        max
    } else {
        y - rows
    }
}

impl AppView {
    /// The cursor is moved.
    pub open spec fn moved(self, motion: Motion, extend: bool) -> AppView {
        self.with_editor(self.editor.moved(motion, extend, self.page()))
    }

    /// A navigation key common to every mode (arrows, Home/End, PageUp/Dn).
    #[verifier::opaque]
    pub open spec fn navigated(self, code: KeyCode, extend: bool) -> AppView {
        match motion_of(code) {
            Some(m) => self.moved(m, extend),
            None => self,
        }
    }

    /// What a key that types or deletes makes of the document.
    #[verifier::opaque]
    pub open spec fn entered(self, code: KeyCode) -> Option<AppView> {
        match code {
            KeyCode::Char(c) => Some(self.with_editor(self.editor.typed(c))),
            KeyCode::Enter => Some(
                self.with_editor(self.editor.newline_entered(self.theme.hard_breaks)),
            ),
            KeyCode::Tab => Some(self.with_editor(self.editor.inserted("\t"@))),
            KeyCode::Backspace => Some(
                self.with_editor(self.editor.removed(self.editor.backspace_range())),
            ),
            KeyCode::Delete => Some(
                self.with_editor(self.editor.removed(self.editor.delete_range())),
            ),
            _ => None,
        }
    }

    /// A chord is obeyed.
    #[verifier::opaque]
    pub open spec fn obeyed(self, chord: Chord, extend: bool) -> (AppView, EffectView) {
        match chord {
            Chord::Run(action) => self.ran(action),
            Chord::Go(motion) => (self.moved(motion, extend), EffectView::Nothing),
            Chord::Nothing => (self, EffectView::Nothing),
        }
    }

    /// A key that is no chord, where every key types: Esc drops the selection.
    #[verifier::opaque]
    pub open spec fn typed_key(self, code: KeyCode, extend: bool) -> AppView {
        match self.entered(code) {
            Some(v) => v,
            None => if code == KeyCode::Esc {
                self.deselected()
            } else {
                self.navigated(code, extend)
            },
        }
    }

    /// A key in the standard preset.
    #[verifier::opaque]
    pub open spec fn standard_key(self, key: Key) -> (AppView, EffectView) {
        if key.ctrl() {
            self.obeyed(standard_chord(key), key.shift)
        } else {
            (self.typed_key(key.code, key.shift), EffectView::Nothing)
        }
    }

    /// A key in Vim's insert mode.
    #[verifier::opaque]
    pub open spec fn vim_insert_key(self, key: Key) -> AppView {
        if key.code == KeyCode::Esc {
            self.in_mode(Mode::Normal)
        } else if key.ctrl() && key.code is Char {
            self
        } else {
            match self.entered(key.code) {
                Some(v) => v,
                None => self.navigated(key.code, key.shift),
            }
        }
    }

    /// A new line is opened below or above, and text is typed there.
    #[verifier::opaque]
    pub open spec fn line_opened(self, below: bool) -> AppView {
        let nl = self.editor.newline();
        let page = self.page();
        let e = if below {
            self.editor.moved(Motion::LineEnd, false, page).inserted(nl)
        } else {
            self.editor.moved(Motion::LineStart, false, page).inserted(nl).moved(
                Motion::Up,
                false,
                page,
            )
        };
        self.with_editor(e).in_mode(Mode::Insert)
    }

    /// The search that a query stands for.
    pub open spec fn search_key(self, query: Seq<char>) -> SearchKey {
        SearchKey {
            query,
            options: self.desk.search_options,
            scope: if self.desk.search_options.selection_only {
                self.find_scope
            } else {
                None
            },
        }
    }

    /// A step to the next or previous match of a query, and what is said where there is
    /// none.
    #[verifier::opaque]
    pub open spec fn stepped(self, query: Seq<char>, forward: bool, select: bool) -> AppView {
        let (e, status) = self.editor.match_stepped(self.search_key(query), forward, select);
        let v = self.with_editor(e);
        match status {
            Some(text) => v.say(text),
            None => v.following(),
        }
    }

    /// The next or previous match of the last query, not selected.
    #[verifier::opaque]
    pub open spec fn found_next(self, forward: bool) -> AppView {
        if self.last_search.len() == 0 {
            self.say("No previous search"@)
        } else {
            self.stepped(self.last_search, forward, false)
        }
    }

    /// The end of a Vim command of two keys.
    #[verifier::opaque]
    pub open spec fn vim_operated(self, op: char, code: KeyCode) -> (AppView, EffectView) {
        if op == 'g' && code == KeyCode::Char('g') {
            (self.moved(Motion::DocStart, false), EffectView::Nothing)
        } else if op == 'd' && code == KeyCode::Char('d') {
            self.line_deleted()
        } else if op == 'y' && code == KeyCode::Char('y') {
            self.line_yanked()
        } else {
            (self, EffectView::Nothing)
        }
    }

    /// A letter in Vim's normal mode that is no motion.
    #[verifier::opaque]
    pub open spec fn vim_letter(self, c: char, ctrl: bool) -> (AppView, EffectView) {
        if c == 'g' || c == 'd' || c == 'y' {
            (self.awaiting(Some(c)), EffectView::Nothing)
        } else if c == 'i' {
            (self.in_mode(Mode::Insert), EffectView::Nothing)
        } else if c == 'a' {
            (self.moved(Motion::Right, false).in_mode(Mode::Insert), EffectView::Nothing)
        } else if c == 'A' {
            (self.moved(Motion::LineEnd, false).in_mode(Mode::Insert), EffectView::Nothing)
        } else if c == 'I' {
            (self.moved(Motion::LineStart, false).in_mode(Mode::Insert), EffectView::Nothing)
        } else if c == 'o' {
            (self.line_opened(true), EffectView::Nothing)
        } else if c == 'O' {
            (self.line_opened(false), EffectView::Nothing)
        } else if c == 'x' {
            (
                self.with_editor(self.editor.removed(self.editor.delete_range())),
                EffectView::Nothing,
            )
        } else if c == 'v' {
            (
                self.marked().in_mode(Mode::Visual),
                EffectView::Nothing,
            )
        } else if c == 'u' {
            self.ran(Action::Undo)
        } else if c == 'r' && ctrl {
            self.ran(Action::Redo)
        } else if c == 'p' || c == 'P' {
            self.ran(Action::Paste)
        } else if c == '/' {
            self.ran(Action::Find)
        } else if c == 'n' {
            (self.found_next(true), EffectView::Nothing)
        } else if c == 'N' {
            (self.found_next(false), EffectView::Nothing)
        } else {
            (self, EffectView::Nothing)
        }
    }

    /// A key in Vim's normal mode.
    #[verifier::opaque]
    pub open spec fn vim_normal_key(self, key: Key) -> (AppView, EffectView) {
        match self.desk.pending {
            Some(op) => self.awaiting(None).vim_operated(op, key.code),
            None => match vim_motion_of(key.code) {
                Some(m) => (self.moved(m, false), EffectView::Nothing),
                None => match key.code {
                    KeyCode::Char(c) => self.vim_letter(c, key.ctrl()),
                    _ => (self, EffectView::Nothing),
                },
            },
        }
    }

    /// Vim's visual mode is left.
    pub open spec fn visual_left(self) -> AppView {
        self.deselected().in_mode(Mode::Normal)
    }

    /// A key in Vim's visual mode.
    #[verifier::opaque]
    pub open spec fn vim_visual_key(self, key: Key) -> (AppView, EffectView) {
        match vim_motion_of(key.code) {
            Some(m) => (self.moved(m, true), EffectView::Nothing),
            None => if key.code == KeyCode::Esc || key.code == KeyCode::Char('v') {
                (self.visual_left(), EffectView::Nothing)
            } else if key.code == KeyCode::Char('y') {
                let (v, effect) = self.copied();
                (v.visual_left(), effect)
            } else if key.code == KeyCode::Char('d') || key.code == KeyCode::Char('x') {
                let (v, effect) = self.cut();
                (v.in_mode(Mode::Normal), effect)
            } else {
                (self, EffectView::Nothing)
            },
        }
    }

    /// A key in the vim preset.
    #[verifier::opaque]
    pub open spec fn vim_key(self, key: Key) -> (AppView, EffectView) {
        match self.desk.mode {
            Mode::Insert => (self.vim_insert_key(key), EffectView::Nothing),
            Mode::Normal => self.vim_normal_key(key),
            Mode::Visual => self.vim_visual_key(key),
            Mode::Read => (self, EffectView::Nothing),
        }
    }

    /// A key with Ctrl in the nano and emacs presets; an active mark (C-Space) extends
    /// motions.
    #[verifier::opaque]
    pub open spec fn modeless_ctrl(self, code: KeyCode, mark: bool) -> (AppView, EffectView) {
        if self.desk.preset == Preset::Emacs && code == KeyCode::Char('x') {
            (self.awaiting(Some('x')), EffectView::Nothing)
        } else if self.desk.preset == Preset::Emacs && code == KeyCode::Char(' ') {
            (
                self.marked().say("Mark set"@),
                EffectView::Nothing,
            )
        } else {
            self.obeyed(modeless_chord(self.desk.preset, code), mark)
        }
    }

    /// A key with Alt in the emacs preset, if it is a command there.
    #[verifier::opaque]
    pub open spec fn emacs_alt(self, code: KeyCode, mark: bool) -> Option<(AppView, EffectView)> {
        if code == KeyCode::Char('w') {
            let (v, effect) = self.ran(Action::Copy);
            // Emacs deactivates the region after a kill-ring save.
            Some((v.deselected(), effect))
        } else if code == KeyCode::Char('f') {
            Some((self.moved(Motion::WordForward, mark), EffectView::Nothing))
        } else if code == KeyCode::Char('b') {
            Some((self.moved(Motion::WordBack, mark), EffectView::Nothing))
        } else if code == KeyCode::Char('s') {
            // Emacs' search prefix; C-s itself is the global save.
            Some(self.ran(Action::Find))
        } else {
            None
        }
    }

    /// A key in the nano and emacs presets.
    #[verifier::opaque]
    pub open spec fn modeless_key(self, key: Key) -> (AppView, EffectView) {
        let emacs = self.desk.preset == Preset::Emacs;
        let mark = emacs && self.editor.anchor is Some;
        if self.desk.pending == Some('x') {
            // `C-x C-s` (save) never reaches here: the global ^S handler runs
            // first, saving and clearing the pending leader.
            let v = self.awaiting(None);
            if key.ctrl() && key.code == KeyCode::Char('c') {
                v.ran(Action::Quit)
            } else {
                (v, EffectView::Nothing)
            }
        } else if key.ctrl() {
            self.modeless_ctrl(key.code, mark)
        } else {
            let plain = (self.typed_key(key.code, key.shift || mark), EffectView::Nothing);
            if key.alt && emacs {
                match self.emacs_alt(key.code, mark) {
                    Some(r) => r,
                    None => plain,
                }
            } else {
                plain
            }
        }
    }

    /// A key while tables are edited row by row, if it is a command there.
    #[verifier::opaque]
    pub open spec fn table_key(self, key: Key) -> Option<AppView> {
        let e = self.editor;
        if key.code == KeyCode::Tab {
            Some(self.with_editor(e.cell_jumped(!key.shift)))
        } else if key.code == KeyCode::BackTab {
            Some(self.with_editor(e.cell_jumped(false)))
        } else if key.code == KeyCode::Char('n') && key.ctrl() {
            Some(self.with_editor(e.row_inserted().0).say_if(e.row_inserted().1))
        } else if key.code == KeyCode::Char('d') && key.ctrl() {
            Some(self.with_editor(e.row_deleted().0).say_if(e.row_deleted().1))
        } else if key.code == KeyCode::Up && key.alt {
            Some(self.with_editor(e.row_moved(false).0).say_if(e.row_moved(false).1))
        } else if key.code == KeyCode::Down && key.alt {
            Some(self.with_editor(e.row_moved(true).0).say_if(e.row_moved(true).1))
        } else {
            None
        }
    }

    /// A key of the preset.
    #[verifier::opaque]
    pub open spec fn preset_key(self, key: Key) -> (AppView, EffectView) {
        match self.desk.preset {
            Preset::Standard => self.standard_key(key),
            Preset::Vim => self.vim_key(key),
            Preset::Nano | Preset::Emacs => self.modeless_key(key),
        }
    }

    /// The last row that the preview can be scrolled to.
    pub open spec fn preview_end(self) -> int {
        let height = if self.desk.viewport_height == 0 {
            1int
        } else {
            self.desk.viewport_height as int
        };
        if self.desk.preview_rows < height {
            0
        } else {
            self.desk.preview_rows - height
        }
    }

    /// Where a key scrolls the preview to.
    pub open spec fn preview_target(self, code: KeyCode) -> int {
        let y = self.desk.scroll_y as int;
        let max = self.preview_end();
        if code == KeyCode::Up || code == KeyCode::Char('k') {
            scroll_stepped(y, false, 1, max)
        } else if code == KeyCode::Down || code == KeyCode::Char('j') {
            scroll_stepped(y, true, 1, max)
        } else if code == KeyCode::PageUp {
            scroll_stepped(y, false, self.page(), max)
        } else if code == KeyCode::PageDown || code == KeyCode::Char(' ') {
            scroll_stepped(y, true, self.page(), max)
        } else if code == KeyCode::Home || code == KeyCode::Char('g') {
            0
        } else if code == KeyCode::End || code == KeyCode::Char('G') {
            max
        } else {
            y
        }
    }

    /// A key in the preview: it scrolls; there is no text cursor.
    #[verifier::opaque]
    pub open spec fn preview_key(self, code: KeyCode) -> AppView {
        if code == KeyCode::Esc || code == KeyCode::Char('q') {
            self.preview_left()
        } else {
            self.scrolled(self.preview_target(code) as usize)
        }
    }

    /// A key while the document is edited.
    #[verifier::opaque]
    pub open spec fn editing_key(self, key: Key) -> (AppView, EffectView) {
        if key.ctrl() && key.code == KeyCode::Char('t') {
            self.awaiting(None).ran(Action::ToggleTable)
        } else if self.desk.table_mode && self.editor.table() is Some {
            match self.table_key(key) {
                Some(v) => (v, EffectView::Nothing),
                None => self.typing_key(key),
            }
        } else if self.desk.table_mode {
            self.in_table_mode(false).say("Table row mode off"@).typing_key(key)
        } else {
            self.typing_key(key)
        }
    }

    /// A key while the document is edited, that is no command of tables: Ctrl and `h`
    /// delete backwards where text is typed.
    #[verifier::opaque]
    pub open spec fn typing_key(self, key: Key) -> (AppView, EffectView) {
        if key.ctrl() && key.code == KeyCode::Char('h') && self.desk.mode == Mode::Insert {
            let v = self.awaiting(None);
            (v.with_editor(v.editor.removed(v.editor.backspace_range())), EffectView::Nothing)
        } else {
            self.preset_key(key)
        }
    }

    /// A key while nothing is open over the document.
    #[verifier::opaque]
    pub open spec fn document_key(self, key: Key) -> (AppView, EffectView) {
        let vim_normal = self.desk.preset == Preset::Vim && self.desk.mode == Mode::Normal;
        match global_action(key) {
            Some(action) => {
                // A global shortcut also ends any pending multi-key chord (Vim
                // `d`/`g`/`y`, Emacs `C-x`).
                let (v, effect) = self.ran(action);
                (v.awaiting(None), effect)
            },
            None => if vim_normal && key.code == KeyCode::Char('?') {
                (self.menu_opened(), EffectView::Nothing)
            } else if key.ctrl() && key.code == KeyCode::Char('r') && !vim_normal {
                self.awaiting(None).ran(Action::ToggleRaw)
            } else if self.desk.mode == Mode::Read {
                (self.preview_key(key.code), EffectView::Nothing)
            } else {
                self.editing_key(key)
            },
        }
    }

    /// A key: what is open over the document has it first.
    #[verifier::opaque]
    pub open spec fn handled(self, key: Key) -> (AppView, EffectView) {
        // Any keystroke ends free (wheel) scrolling: the view snaps back to
        // the cursor so the user is editing what they see.
        let v = self.silent().following();
        if v.prompt is Some {
            v.prompt_key(key)
        } else if v.palette is Some {
            v.palette_key(key)
        } else if v.outline is Some {
            (v.outline_key(key), EffectView::Nothing)
        } else if v.diagnostics is Some {
            (v.diagnostics_key(key), EffectView::Nothing)
        } else if v.recent_picker is Some {
            v.recent_key(key)
        } else if v.desk.menu is Some {
            v.menu_key(key)
        } else {
            v.document_key(key)
        }
    }
}

impl App {
    /// Move the cursor.
    #[verifier::spinoff_prover]
    pub fn do_motion(&mut self, motion: Motion, extend: bool)
        requires
            old(self).wf(),
        ensures
            final(self).wf(),
            final(self)@ == old(self)@.moved(motion, extend),
    {
        proof {
            reveal(App::seen);
            reveal(App::wf);
        }
        let page: usize = self.page_rows();
        self.editor.do_motion(motion, extend, page);
    }

    /// Handle the navigation keys common to every mode (arrows, Home/End,
    /// PageUp/Dn). `extend` controls whether the selection grows.
    #[verifier::spinoff_prover]
    fn motion_key(&mut self, code: KeyCode, extend: bool)
        requires
            old(self).wf(),
        ensures
            final(self).wf(),
            final(self)@ == old(self)@.navigated(code, extend),
    {
        proof {
            reveal(AppView::navigated);
        }
        match navigation_motion(code) {
            Some(m) => self.do_motion(m, extend),
            None => {},
        }
    }

    /// Type or delete, if the key does.
    #[verifier::spinoff_prover]
    fn entry_key(&mut self, code: KeyCode) -> (done: bool)
        requires
            old(self).wf(),
        ensures
            final(self).wf(),
            done == (old(self)@.entered(code) is Some),
            final(self)@ == match old(self)@.entered(code) {
                Some(v) => v,
                None => old(self)@,
            },
    {
        proof {
            reveal(AppView::entered);
        }
        match code {
            KeyCode::Char(c) => self.type_char(c),
            KeyCode::Enter => self.type_newline(),
            KeyCode::Tab => self.insert_text("\t"),
            KeyCode::Backspace => self.backspace(),
            KeyCode::Delete => self.delete_forward(),
            _ => {
                return false;
            },
        }
        true
    }

    /// Obey a chord.
    #[verifier::spinoff_prover]
    fn obey(&mut self, chord: Chord, extend: bool) -> (effect: Effect)
        requires
            old(self).wf(),
        ensures
            final(self).wf(),
            (final(self)@, effect@) == old(self)@.obeyed(chord, extend),
    {
        proof {
            reveal(AppView::obeyed);
        }
        match chord {
            Chord::Run(action) => self.run_action(action),
            Chord::Go(motion) => {
                self.do_motion(motion, extend);
                Effect::Nothing
            },
            Chord::Nothing => Effect::Nothing,
        }
    }

    /// A key that is no chord, where every key types.
    #[verifier::spinoff_prover]
    fn type_key(&mut self, code: KeyCode, extend: bool)
        requires
            old(self).wf(),
        ensures
            final(self).wf(),
            final(self)@ == old(self)@.typed_key(code, extend),
    {
        proof {
            reveal(AppView::typed_key);
        }
        if self.entry_key(code) {
            return;
        }
        if code == KeyCode::Esc {
            self.deselect();
            return;
        }
        self.motion_key(code, extend);
    }

    #[verifier::spinoff_prover]
    fn handle_standard(&mut self, key: Key) -> (effect: Effect)
        requires
            old(self).wf(),
        ensures
            final(self).wf(),
            (final(self)@, effect@) == old(self)@.standard_key(key),
    {
        proof {
            reveal(AppView::standard_key);
        }
        if key.is_ctrl() {
            return self.obey(chord_in_standard(key), key.shift);
        }
        self.type_key(key.code, key.shift);
        Effect::Nothing
    }

    #[verifier::spinoff_prover]
    fn vim_insert(&mut self, key: Key)
        requires
            old(self).wf(),
        ensures
            final(self).wf(),
            final(self)@ == old(self)@.vim_insert_key(key),
    {
        proof {
            reveal(AppView::vim_insert_key);
        }
        if key.code == KeyCode::Esc {
            self.set_mode(Mode::Normal);
            return;
        }
        if key.is_ctrl() {
            match key.code {
                KeyCode::Char(_) => {
                    return;
                },
                _ => {},
            }
        }
        if self.entry_key(key.code) {
            return;
        }
        self.motion_key(key.code, key.shift);
    }

    /// Open a new line below (`true`) or above (`false`) and enter insert mode.
    #[verifier::spinoff_prover]
    pub fn open_line(&mut self, below: bool)
        requires
            old(self).wf(),
        ensures
            final(self).wf(),
            final(self)@ == old(self)@.line_opened(below),
    {
        proof {
            reveal(AppView::line_opened);
        }
        let nl = self.newline();
        if below {
            self.do_motion(Motion::LineEnd, false);
            self.insert_text(nl);
            self.set_mode(Mode::Insert);
        } else {
            self.do_motion(Motion::LineStart, false);
            self.insert_text(nl);
            self.do_motion(Motion::Up, false);
            self.set_mode(Mode::Insert);
        }
    }

    /// The bytes that a search is confined to.
    pub fn search_scope(&self) -> (scope: Option<(usize, usize)>)
        requires
            self.wf(),
        ensures
            scope == self@.search_key(Seq::empty()).scope,
    {
        if self.desk().search_options.selection_only {
            self.find_range()
        } else {
            None
        }
    }

    /// Step to the next/previous match in the document.
    #[verifier::spinoff_prover]
    fn step_match(
        &mut self,
        query: &str,
        options: SearchOptions,
        scope: Option<(usize, usize)>,
        forward: bool,
        select: bool,
    ) -> (status: Option<&'static str>)
        requires
            old(self).wf(),
        ensures
            final(self).wf(),
            ({
                let key = SearchKey { query: query@, options, scope };
                let (e, said) = old(self)@.editor.match_stepped(key, forward, select);
                final(self)@ == old(self)@.with_editor(e) && opt_str(status) == said
            }),
    {
        proof {
            reveal(App::seen);
            reveal(App::wf);
        }
        self.editor.find_step(query, options, scope, forward, select)
    }

    /// Step to the next/previous match of a query, wrapping.
    #[verifier::spinoff_prover]
    pub fn find_step(&mut self, query: &str, forward: bool, select: bool)
        requires
            old(self).wf(),
        ensures
            final(self).wf(),
            final(self)@ == old(self)@.stepped(query@, forward, select),
    {
        proof {
            reveal(AppView::stepped);
        }
        let scope = self.search_scope();
        let options: SearchOptions = self.desk().search_options;
        match self.step_match(query, options, scope, forward, select) {
            Some(text) => self.set_status(text),
            None => {
                self.follow();
            },
        }
    }

    /// Jump to the next/previous match relative to the current one (Vim
    /// `n`/`N`), reusing the last query. Places the cursor at the match start
    /// without selecting, so `x`/`d` keep their single-target meaning.
    #[verifier::spinoff_prover]
    pub fn find_next(&mut self, forward: bool)
        requires
            old(self).wf(),
        ensures
            final(self).wf(),
            final(self)@ == old(self)@.found_next(forward),
    {
        proof {
            reveal(AppView::found_next);
        }
        let query = self.last_query();
        if query.as_str().is_empty() {
            self.set_status("No previous search");
            return;
        }
        self.find_step(query.as_str(), forward, false);
    }

    #[verifier::spinoff_prover]
    fn vim_operator(&mut self, op: char, code: KeyCode) -> (effect: Effect)
        requires
            old(self).wf(),
        ensures
            final(self).wf(),
            (final(self)@, effect@) == old(self)@.vim_operated(op, code),
    {
        proof {
            reveal(AppView::vim_operated);
        }
        if op == 'g' && code == KeyCode::Char('g') {
            self.do_motion(Motion::DocStart, false);
            Effect::Nothing
        } else if op == 'd' && code == KeyCode::Char('d') {
            self.delete_line()
        } else if op == 'y' && code == KeyCode::Char('y') {
            self.yank_line()
        } else {
            Effect::Nothing
        }
    }

    #[verifier::spinoff_prover]
    fn vim_letter(&mut self, c: char, ctrl: bool) -> (effect: Effect)
        requires
            old(self).wf(),
        ensures
            final(self).wf(),
            (final(self)@, effect@) == old(self)@.vim_letter(c, ctrl),
    {
        proof {
            reveal(AppView::vim_letter);
        }
        if c == 'g' || c == 'd' || c == 'y' {
            self.set_pending(Some(c));
        } else if c == 'i' {
            self.set_mode(Mode::Insert);
        } else if c == 'a' {
            self.do_motion(Motion::Right, false);
            self.set_mode(Mode::Insert);
        } else if c == 'A' {
            self.do_motion(Motion::LineEnd, false);
            self.set_mode(Mode::Insert);
        } else if c == 'I' {
            self.do_motion(Motion::LineStart, false);
            self.set_mode(Mode::Insert);
        } else if c == 'o' {
            self.open_line(true);
        } else if c == 'O' {
            self.open_line(false);
        } else if c == 'x' {
            self.delete_forward();
        } else if c == 'v' {
            self.set_mark();
            self.set_mode(Mode::Visual);
        } else if c == 'u' {
            return self.run_action(Action::Undo);
        } else if c == 'r' && ctrl {
            return self.run_action(Action::Redo);
        } else if c == 'p' || c == 'P' {
            return self.run_action(Action::Paste);
        } else if c == '/' {
            return self.run_action(Action::Find);
        } else if c == 'n' {
            self.find_next(true);
        } else if c == 'N' {
            self.find_next(false);
        }
        Effect::Nothing
    }

    #[verifier::spinoff_prover]
    fn vim_normal(&mut self, key: Key) -> (effect: Effect)
        requires
            old(self).wf(),
        ensures
            final(self).wf(),
            (final(self)@, effect@) == old(self)@.vim_normal_key(key),
    {
        proof {
            reveal(AppView::vim_normal_key);
        }
        match self.desk().pending {
            Some(op) => {
                self.set_pending(None);
                return self.vim_operator(op, key.code);
            },
            None => {},
        }
        match vim_motion(key.code) {
            Some(m) => {
                self.do_motion(m, false);
                return Effect::Nothing;
            },
            None => {},
        }
        match key.code {
            KeyCode::Char(c) => self.vim_letter(c, key.is_ctrl()),
            _ => Effect::Nothing,
        }
    }

    /// Leave Vim's visual mode.
    #[verifier::spinoff_prover]
    pub fn exit_visual(&mut self)
        requires
            old(self).wf(),
        ensures
            final(self).wf(),
            final(self)@ == old(self)@.visual_left(),
    {
        self.deselect();
        self.set_mode(Mode::Normal);
    }

    #[verifier::spinoff_prover]
    fn vim_visual(&mut self, key: Key) -> (effect: Effect)
        requires
            old(self).wf(),
        ensures
            final(self).wf(),
            (final(self)@, effect@) == old(self)@.vim_visual_key(key),
    {
        proof {
            reveal(AppView::vim_visual_key);
        }
        match vim_motion(key.code) {
            Some(m) => {
                self.do_motion(m, true);
                return Effect::Nothing;
            },
            None => {},
        }
        if key.code == KeyCode::Esc || key.code == KeyCode::Char('v') {
            self.exit_visual();
            Effect::Nothing
        } else if key.code == KeyCode::Char('y') {
            let effect = self.copy();
            self.exit_visual();
            effect
        } else if key.code == KeyCode::Char('d') || key.code == KeyCode::Char('x') {
            let effect = self.cut();
            self.set_mode(Mode::Normal);
            effect
        } else {
            Effect::Nothing
        }
    }

    #[verifier::spinoff_prover]
    fn handle_vim(&mut self, key: Key) -> (effect: Effect)
        requires
            old(self).wf(),
        ensures
            final(self).wf(),
            (final(self)@, effect@) == old(self)@.vim_key(key),
    {
        proof {
            reveal(AppView::vim_key);
        }
        match self.desk().mode {
            Mode::Insert => {
                self.vim_insert(key);
                Effect::Nothing
            },
            Mode::Normal => self.vim_normal(key),
            Mode::Visual => self.vim_visual(key),
            Mode::Read => Effect::Nothing,
        }
    }

    #[verifier::spinoff_prover]
    fn handle_modeless_ctrl(&mut self, code: KeyCode, mark: bool) -> (effect: Effect)
        requires
            old(self).wf(),
        ensures
            final(self).wf(),
            (final(self)@, effect@) == old(self)@.modeless_ctrl(code, mark),
    {
        proof {
            reveal(AppView::modeless_ctrl);
        }
        let preset = self.desk().preset;
        if preset == Preset::Emacs && code == KeyCode::Char('x') {
            self.set_pending(Some('x'));
            Effect::Nothing
        } else if preset == Preset::Emacs && code == KeyCode::Char(' ') {
            self.set_mark();
            self.set_status("Mark set");
            Effect::Nothing
        } else {
            self.obey(chord_in_modeless(preset, code), mark)
        }
    }

    #[verifier::spinoff_prover]
    fn handle_emacs_alt(&mut self, code: KeyCode, mark: bool) -> (effect: Option<Effect>)
        requires
            old(self).wf(),
        ensures
            final(self).wf(),
            match effect {
                Some(e) => Some((final(self)@, e@)) == old(self)@.emacs_alt(code, mark),
                None => old(self)@.emacs_alt(code, mark) is None && final(self)@ == old(self)@,
            },
    {
        proof {
            reveal(AppView::emacs_alt);
        }
        if code == KeyCode::Char('w') {
            let effect = self.run_action(Action::Copy);
            self.deselect();
            Some(effect)
        } else if code == KeyCode::Char('f') {
            self.do_motion(Motion::WordForward, mark);
            Some(Effect::Nothing)
        } else if code == KeyCode::Char('b') {
            self.do_motion(Motion::WordBack, mark);
            Some(Effect::Nothing)
        } else if code == KeyCode::Char('s') {
            let effect = self.run_action(Action::Find);
            Some(effect)
        } else {
            None
        }
    }

    #[verifier::spinoff_prover]
    fn handle_modeless(&mut self, key: Key) -> (effect: Effect)
        requires
            old(self).wf(),
        ensures
            final(self).wf(),
            (final(self)@, effect@) == old(self)@.modeless_key(key),
    {
        proof {
            reveal(AppView::modeless_key);
        }
        let emacs = self.desk().preset == Preset::Emacs;
        let mark = emacs && self.has_mark();
        if self.desk().pending == Some('x') {
            self.set_pending(None);
            if key.is_ctrl() && key.code == KeyCode::Char('c') {
                return self.run_action(Action::Quit);
            }
            return Effect::Nothing;
        }
        if key.is_ctrl() {
            return self.handle_modeless_ctrl(key.code, mark);
        }
        if key.alt && emacs {
            match self.handle_emacs_alt(key.code, mark) {
                Some(effect) => {
                    return effect;
                },
                None => {},
            }
        }
        self.type_key(key.code, key.shift || mark);
        Effect::Nothing
    }

    #[verifier::spinoff_prover]
    fn handle_table_key(&mut self, key: Key) -> (done: bool)
        requires
            old(self).wf(),
        ensures
            final(self).wf(),
            done == (old(self)@.table_key(key) is Some),
            final(self)@ == match old(self)@.table_key(key) {
                Some(v) => v,
                None => old(self)@,
            },
    {
        proof {
            reveal(AppView::table_key);
        }
        if key.code == KeyCode::Tab {
            self.jump_cell(!key.shift);
        } else if key.code == KeyCode::BackTab {
            self.jump_cell(false);
        } else if key.code == KeyCode::Char('n') && key.is_ctrl() {
            self.insert_row();
        } else if key.code == KeyCode::Char('d') && key.is_ctrl() {
            self.delete_row();
        } else if key.code == KeyCode::Up && key.alt {
            self.move_row(false);
        } else if key.code == KeyCode::Down && key.alt {
            self.move_row(true);
        } else {
            return false;
        }
        true
    }

    #[verifier::spinoff_prover]
    fn handle_preset(&mut self, key: Key) -> (effect: Effect)
        requires
            old(self).wf(),
        ensures
            final(self).wf(),
            (final(self)@, effect@) == old(self)@.preset_key(key),
    {
        proof {
            reveal(AppView::preset_key);
        }
        match self.desk().preset {
            Preset::Standard => self.handle_standard(key),
            Preset::Vim => self.handle_vim(key),
            Preset::Nano | Preset::Emacs => self.handle_modeless(key),
        }
    }

    /// Where a key scrolls the preview to.
    #[verifier::spinoff_prover]
    fn preview_scroll(&self, code: KeyCode) -> (to: usize)
        requires
            self.wf(),
        ensures
            to == self@.preview_target(code),
    {
        let desk = self.desk();
        let page: usize = self.page_rows();
        let height: usize = if desk.viewport_height == 0 {
            1
        } else {
            desk.viewport_height
        };
        let max: usize = if desk.preview_rows < height {
            0
        } else {
            desk.preview_rows - height
        };
        let y: usize = desk.scroll_y;
        if code == KeyCode::Up || code == KeyCode::Char('k') {
            step_scroll(y, false, 1, max)
        } else if code == KeyCode::Down || code == KeyCode::Char('j') {
            step_scroll(y, true, 1, max)
        } else if code == KeyCode::PageUp {
            step_scroll(y, false, page, max)
        } else if code == KeyCode::PageDown || code == KeyCode::Char(' ') {
            step_scroll(y, true, page, max)
        } else if code == KeyCode::Home || code == KeyCode::Char('g') {
            0
        } else if code == KeyCode::End || code == KeyCode::Char('G') {
            max
        } else {
            y
        }
    }

    /// Read mode: scroll the rendered preview; no text cursor.
    #[verifier::spinoff_prover]
    fn scroll_preview(&mut self, code: KeyCode)
        requires
            old(self).wf(),
        ensures
            final(self).wf(),
            final(self)@ == old(self)@.preview_key(code),
    {
        proof {
            reveal(AppView::preview_key);
        }
        if code == KeyCode::Esc || code == KeyCode::Char('q') {
            self.leave_preview();
            return;
        }
        let to: usize = self.preview_scroll(code);
        self.set_scroll(to);
    }

    #[verifier::spinoff_prover]
    fn handle_typing(&mut self, key: Key) -> (effect: Effect)
        requires
            old(self).wf(),
        ensures
            final(self).wf(),
            (final(self)@, effect@) == old(self)@.typing_key(key),
    {
        proof {
            reveal(AppView::typing_key);
        }
        if key.is_ctrl() && key.code == KeyCode::Char('h') && self.desk().mode == Mode::Insert {
            self.set_pending(None);
            self.backspace();
            return Effect::Nothing;
        }
        self.handle_preset(key)
    }

    #[verifier::spinoff_prover]
    fn handle_editing(&mut self, key: Key) -> (effect: Effect)
        requires
            old(self).wf(),
        ensures
            final(self).wf(),
            (final(self)@, effect@) == old(self)@.editing_key(key),
    {
        proof {
            reveal(AppView::editing_key);
        }
        if key.is_ctrl() && key.code == KeyCode::Char('t') {
            self.set_pending(None);
            return self.run_action(Action::ToggleTable);
        }
        if self.desk().table_mode {
            if self.is_in_table() {
                if self.handle_table_key(key) {
                    return Effect::Nothing;
                }
            } else {
                self.set_table_mode(false);
                self.set_status("Table row mode off");
                return self.handle_typing(key);
            }
        }
        self.handle_typing(key)
    }

    #[verifier::spinoff_prover]
    fn handle_document(&mut self, key: Key) -> (effect: Effect)
        requires
            old(self).wf(),
        ensures
            final(self).wf(),
            (final(self)@, effect@) == old(self)@.document_key(key),
    {
        proof {
            reveal(AppView::document_key);
        }
        match global_shortcut(key) {
            Some(action) => {
                let effect = self.run_action(action);
                self.set_pending(None);
                return effect;
            },
            None => {},
        }
        let vim_normal = self.desk().preset == Preset::Vim && self.desk().mode == Mode::Normal;
        if vim_normal && key.code == KeyCode::Char('?') {
            self.open_menu();
            return Effect::Nothing;
        }
        if key.is_ctrl() && key.code == KeyCode::Char('r') && !vim_normal {
            self.set_pending(None);
            return self.run_action(Action::ToggleRaw);
        }
        if self.desk().mode.is_read() {
            self.scroll_preview(key.code);
            return Effect::Nothing;
        }
        self.handle_editing(key)
    }

    /// Handle a key.
    #[verifier::spinoff_prover]
    pub fn handle_key(&mut self, key: Key) -> (effect: Effect)
        requires
            old(self).wf(),
        ensures
            final(self).wf(),
            (final(self)@, effect@) == old(self)@.handled(key),
    {
        proof {
            reveal(AppView::handled);
        }
        self.clear_status();
        self.follow();
        if self.prompt_open() {
            return self.handle_prompt_key(key);
        }
        if self.palette_open() {
            return self.handle_palette_key(key);
        }
        if self.outline_open() {
            self.handle_outline_key(key);
            return Effect::Nothing;
        }
        if self.diagnostics_open() {
            self.handle_diagnostics_key(key);
            return Effect::Nothing;
        }
        if self.recent_picker_open() {
            return self.handle_recent_key(key);
        }
        if self.menu_open() {
            return self.handle_menu_key(key);
        }
        self.handle_document(key)
    }
}

} // verus!
