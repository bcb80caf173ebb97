//! What the commands of the editor do.

use vstd::prelude::*;
use vstd::utf8::*;

use crate::action::Action;
use crate::app::{
    App, AppView, CursorShape, Desk, Diagnostics, DiagnosticsView, Effect, EffectView, Menu, Mode,
    Outline, Palette, PickerView, Preset, Prompt, PromptState,
};
use crate::buffer::{BufferView, DiskState, TextBuffer};
use crate::bytes::{boundary, lemma_boundary_ends};
use crate::line_index::least;
use crate::diagnostics::{diagnose, diagnosed};
use crate::editor::{floor_boundary, EditorView};
use crate::history::HistoryView;
use crate::markdown::theme::{face, with_overrides, MarkdownTheme, ThemeName, ThemeVariant};
use crate::matches::SearchOptions;
use crate::navigation::{follow_link, followed, Follow, FollowView};
use crate::search::FindRestore;
use crate::session::{remember, remembered, RecentFile, RecentPicker, RecentView};
use crate::strings::{byte_len, byte_length, contains_char, has_char, joined, opt_str};

verus! {

/// The longest selection, in bytes, that a search starts from.
pub const MAX_SEED: usize = 200;

/// A document without a file and without text.
pub open spec fn blank_document() -> BufferView {
    BufferView {
        text: Seq::empty(),
        path: None,
        name: None,
        modified: false,
        crlf: false,
        disk: DiskState::Missing,
    }
}

/// What says whether something is on.
pub open spec fn switched(on: bool, yes: Seq<char>, no: Seq<char>) -> Seq<char> {
    if on {
        yes
    } else {
        no
    }
}

impl AppView {
    /// Whether a command can be run.
    pub open spec fn enabled(self, action: Action) -> bool {
        match action {
            Action::ToggleTable
            | Action::Undo
            | Action::Redo
            | Action::SelectAll
            | Action::Copy
            | Action::Cut
            | Action::Paste
            | Action::Bold
            | Action::Italic
            | Action::Strikethrough
            | Action::InlineCode
            | Action::Link
            | Action::CycleHeading
            | Action::ToggleQuote
            | Action::ToggleBullet
            | Action::ToggleTask
            | Action::FormatTable
            | Action::FollowLink => self.desk.mode != Mode::Read,
            Action::NewFile | Action::OpenFile => !self.editor.doc.modified,
            Action::RenameFile | Action::TrashFile => self.editor.doc.path is Some,
            _ => true,
        }
    }

    /// The scroll position of the editing view is kept.
    #[verifier::opaque]
    pub open spec fn edit_scroll_saved(self) -> AppView {
        if self.desk.raw_view {
            self.with_desk(Desk { raw_scroll_y: self.desk.scroll_y, ..self.desk })
        } else {
            self.with_desk(Desk { focus_scroll_y: self.desk.scroll_y, ..self.desk })
        }
    }

    /// The cursor is where it was, the selection is gone, and the view follows.
    #[verifier::opaque]
    pub open spec fn jumped(self, byte: int) -> AppView {
        self.with_editor(self.editor.at(byte).unselected().synced()).with_desk(
            Desk { follow_cursor: true, ..self.desk },
        )
    }

    /// The preview is left: the cursor and the scroll position are those that it was
    /// entered with.
    #[verifier::opaque]
    pub open spec fn preview_left(self) -> AppView {
        let b = self.editor.bytes();
        self.with_editor(
            self.editor.at(
                floor_boundary(b, least(self.desk.read_cursor as int, b.len() as int)),
            ).synced(),
        ).with_desk(
            Desk {
                read_scroll_y: self.desk.scroll_y,
                mode: self.desk.preset.resting(),
                scroll_y: if self.desk.raw_view {
                    self.desk.raw_scroll_y
                } else {
                    self.desk.focus_scroll_y
                },
                follow_cursor: false,
                ..self.desk
            },
        )
    }

    /// The preview is entered, or left.
    #[verifier::opaque]
    pub open spec fn preview_toggled(self) -> AppView {
        if self.desk.mode == Mode::Read {
            self.preview_left()
        } else {
            let v = self.edit_scroll_saved();
            v.with_editor(v.editor.unselected()).with_desk(
                Desk {
                    read_cursor: v.editor.cursor.byte,
                    mode: Mode::Read,
                    menu: None,
                    scroll_y: v.desk.read_scroll_y,
                    follow_cursor: false,
                    ..v.desk
                },
            )
        }
    }

    /// The raw view is entered, or left; each view keeps its scroll position.
    #[verifier::opaque]
    pub open spec fn raw_toggled(self) -> AppView {
        let d = if self.desk.mode == Mode::Read {
            self.desk
        } else if self.desk.raw_view {
            Desk {
                raw_scroll_y: self.desk.scroll_y,
                scroll_y: self.desk.focus_scroll_y,
                follow_cursor: false,
                ..self.desk
            }
        } else {
            Desk {
                focus_scroll_y: self.desk.scroll_y,
                scroll_y: self.desk.raw_scroll_y,
                follow_cursor: false,
                ..self.desk
            }
        };
        self.with_desk(Desk { raw_view: !self.desk.raw_view, ..d }).say(
            switched(!self.desk.raw_view, "Raw view on"@, "Raw view off"@),
        )
    }

    /// The keybindings are those of a preset.
    #[verifier::opaque]
    pub open spec fn preset_set(self, preset: Preset) -> AppView {
        let v = if self.desk.mode == Mode::Read {
            self.preview_left()
        } else {
            self
        };
        v.with_editor(v.editor.unselected()).with_desk(
            Desk {
                preset,
                mode: preset.resting(),
                pending: None,
                table_mode: false,
                ..v.desk
            },
        ).say("Keybindings: "@ + preset.label_text())
    }

    /// The theme is another one, with the settings and the overrides of this one.
    #[verifier::opaque]
    pub open spec fn theme_applied(self, name: ThemeName, variant: ThemeVariant) -> AppView {
        let t = MarkdownTheme {
            heading_glyphs: self.theme.heading_glyphs,
            hard_breaks: self.theme.hard_breaks,
            ..face(name, variant, self.desk.truecolor)
        };
        AppView { theme: with_overrides(t, self.theme_overrides, self.desk.truecolor), ..self }
    }

    /// The cursor has the other shape.
    #[verifier::opaque]
    pub open spec fn shape_toggled(self) -> AppView {
        let shape = match self.desk.cursor_shape {
            CursorShape::Block => CursorShape::Line,
            CursorShape::Line => CursorShape::Block,
        };
        self.with_desk(Desk { cursor_shape: shape, ..self.desk }).say(
            "Cursor: "@ + shape.label_text(),
        )
    }

    /// The statistics are shown, or no longer.
    #[verifier::opaque]
    pub open spec fn stats_toggled(self) -> AppView {
        let on = !self.desk.show_status_stats;
        self.with_desk(Desk { show_status_stats: on, ..self.desk }).say(
            switched(on, "Document statistics on"@, "Document statistics off"@),
        )
    }

    /// Tables are edited row by row, or no longer.
    #[verifier::opaque]
    pub open spec fn table_toggled(self) -> AppView {
        if self.editor.table() is Some {
            let on = !self.desk.table_mode;
            self.with_desk(Desk { table_mode: on, ..self.desk }).say(
                switched(on, "Table row mode"@, "Table row mode off"@),
            )
        } else {
            self.with_desk(Desk { table_mode: false, ..self.desk }).say("No table at cursor"@)
        }
    }

    /// The application quits, or asks first when there are unsaved changes.
    #[verifier::opaque]
    pub open spec fn quit_requested(self) -> AppView {
        if self.editor.doc.modified {
            self.ask(PromptState::ConfirmQuit)
        } else {
            self.with_desk(Desk { should_quit: true, ..self.desk })
        }
    }

    /// The settings popup is open; what it can undo is kept.
    #[verifier::opaque]
    pub open spec fn menu_opened(self) -> AppView {
        self.with_desk(
            Desk {
                menu: Some(
                    Menu {
                        focus: 0,
                        guide_scroll: 0,
                        orig_preset: self.desk.preset,
                        orig_theme: self.theme.name,
                        orig_variant: self.theme.variant,
                        orig_line_numbers: self.desk.line_numbers,
                    },
                ),
                ..self.desk
            },
        )
    }

    /// The command palette is open.
    #[verifier::opaque]
    pub open spec fn palette_opened(self) -> AppView {
        AppView {
            palette: Some(PickerView { query: Seq::empty(), selected: 0 }),
            ..self.with_desk(Desk { menu: None, ..self.desk })
        }
    }

    /// The outline is open.
    #[verifier::opaque]
    pub open spec fn outline_opened(self) -> AppView {
        AppView {
            palette: None,
            outline: Some(PickerView { query: Seq::empty(), selected: 0 }),
            ..self
        }
    }

    /// The diagnostics are open, if there are any.
    #[verifier::opaque]
    pub open spec fn diagnostics_opened(self) -> AppView {
        let items = diagnosed(self.editor.doc.text);
        let v = AppView { palette: None, ..self };
        if items.len() == 0 {
            v.say("No Markdown diagnostics"@)
        } else {
            AppView { diagnostics: Some(DiagnosticsView { items, selected: 0 }), ..v }
        }
    }

    /// The list of recent files is open, if the document can be left and there are any.
    #[verifier::opaque]
    pub open spec fn recent_opened(self) -> AppView {
        if self.editor.doc.modified {
            self.say("Save or discard changes before switching files"@)
        } else if self.recent_files.len() == 0 {
            self.say("No recent files"@)
        } else {
            AppView {
                palette: None,
                recent_picker: Some(PickerView { query: Seq::empty(), selected: 0 }),
                ..self
            }
        }
    }

    /// What a search starts from: the selection, where it can be a query, or the last one.
    #[verifier::opaque]
    pub open spec fn seed(self) -> Seq<char> {
        match self.editor.selection() {
            Some((s, e)) => {
                let t = self.editor.slice(s as int, e as int);
                if t.len() > 0 && !has_char(t, '\n') && byte_len(t) <= MAX_SEED {
                    t
                } else {
                    self.last_search
                }
            },
            None => self.last_search,
        }
    }

    /// The find prompt is open; where the search began is kept.
    #[verifier::opaque]
    pub open spec fn find_opened(self) -> AppView {
        let selection = self.editor.selection();
        AppView {
            find_scope: selection,
            ..self.with_desk(
                Desk {
                    find_origin: match selection {
                        Some((s, e)) => s,
                        None => self.editor.cursor.byte,
                    },
                    find_restore: Some(
                        FindRestore {
                            cursor: self.editor.cursor.byte,
                            selection_anchor: self.editor.anchor,
                        },
                    ),
                    search_options: SearchOptions {
                        selection_only: false,
                        ..self.desk.search_options
                    },
                    ..self.desk
                },
            ).ask(PromptState::Find { input: self.seed(), cursor: byte_len(self.seed()) as int })
        }
    }

    /// The name to save a document without a file under is asked for.
    #[verifier::opaque]
    pub open spec fn save_as_opened(self) -> AppView {
        self.ask(PromptState::SaveAs { input: ".md"@, cursor: 0, error: None })
    }

    /// The name to save the document under is asked for, beginning with the one it has.
    #[verifier::opaque]
    pub open spec fn save_as_current_opened(self) -> AppView {
        match self.editor.doc.path {
            Some(p) => self.ask(
                PromptState::SaveAs {
                    input: p.full,
                    cursor: byte_len(p.full) as int,
                    error: None,
                },
            ),
            None => self.save_as_opened(),
        }
    }

    /// The document is to be saved: to its file, once that was looked at, or under a name
    /// that is asked for.
    #[verifier::opaque]
    pub open spec fn save_begun(self) -> (AppView, EffectView) {
        if self.editor.doc.path is Some {
            (self, EffectView::CheckDisk)
        } else {
            (self.save_as_opened(), EffectView::Nothing)
        }
    }

    /// The file that is open is remembered, with where it is left.
    #[verifier::opaque]
    pub open spec fn file_remembered(self) -> AppView {
        match self.editor.doc.path {
            Some(p) => {
                let v = self.edit_scroll_saved();
                AppView {
                    recent_files: remembered(
                        v.recent_files,
                        RecentView {
                            path: p.key,
                            cursor: v.editor.cursor.byte,
                            focus_scroll: v.desk.focus_scroll_y,
                            raw_scroll: v.desk.raw_scroll_y,
                            read_scroll: v.desk.read_scroll_y,
                        },
                    ),
                    ..v
                }
            },
            None => self,
        }
    }

    /// The document is another one, with the given history.
    #[verifier::opaque]
    pub open spec fn document_set(self, doc: BufferView, history: HistoryView) -> AppView {
        let editor = self.editor.reset(doc, history);
        self.with_editor(editor).with_desk(
            Desk { scroll_y: 0, recovery_written_version: editor.version, ..self.desk },
        )
    }

    /// The cursor and every view are at the top.
    #[verifier::opaque]
    pub open spec fn file_view_reset(self) -> AppView {
        self.with_editor(self.editor.at(0)).with_desk(
            Desk {
                scroll_y: 0,
                focus_scroll_y: 0,
                raw_scroll_y: 0,
                read_scroll_y: 0,
                mode: self.desk.preset.resting(),
                follow_cursor: true,
                ..self.desk
            },
        )
    }

    /// A new document is begun, unless there are unsaved changes.
    #[verifier::opaque]
    pub open spec fn document_begun(self) -> AppView {
        if self.editor.doc.modified {
            self.say("Save or discard changes before creating a document"@)
        } else {
            self.file_remembered().document_set(
                blank_document(),
                HistoryView::fresh(),
            ).file_view_reset().say("New document"@)
        }
    }

    /// The name of the file to open is asked for.
    #[verifier::opaque]
    pub open spec fn open_asked(self) -> AppView {
        self.ask(PromptState::OpenFile { input: Seq::empty(), cursor: 0, error: None })
    }

    /// The name that the file gets is asked for, beginning with the one it has.
    #[verifier::opaque]
    pub open spec fn rename_asked(self) -> AppView {
        match self.editor.doc.path {
            Some(p) => self.ask(
                PromptState::RenameFile {
                    input: p.full,
                    cursor: byte_len(p.full) as int,
                    error: None,
                },
            ),
            None => self,
        }
    }

    /// Everything is selected.
    #[verifier::opaque]
    pub open spec fn all_selected(self) -> AppView {
        self.with_editor(
            EditorView {
                anchor: Some(0),
                ..self.editor
            }.at(self.editor.bytes().len() as int).synced().run_ended(),
        )
    }

    /// The last edit is taken back, if there is one.
    #[verifier::opaque]
    pub open spec fn undone(self) -> AppView {
        let v = self.with_editor(self.editor.undone());
        if self.editor.history.undo.len() > 0 {
            v
        } else {
            v.say("Nothing to undo"@)
        }
    }

    /// The last edit that was taken back is made again, if there is one.
    #[verifier::opaque]
    pub open spec fn redone(self) -> AppView {
        let v = self.with_editor(self.editor.redone());
        if self.editor.history.redo.len() > 0 {
            v
        } else {
            v.say("Nothing to redo"@)
        }
    }

    /// The selection, or the line of the cursor, is in the register.
    #[verifier::opaque]
    pub open spec fn copied(self) -> (AppView, EffectView) {
        let (s, e) = self.editor.copy_range();
        let t = self.editor.slice(s, e);
        (AppView { register: t, ..self }.say("Copied"@), EffectView::Copy(t))
    }

    /// The document without a range, as a step of its own; a list that lost a line is
    /// numbered anew.
    #[verifier::opaque]
    pub open spec fn cut_out(self, s: int, e: int, renumber: bool) -> AppView {
        let editor = self.editor.run_ended().replaced(s, e, Seq::empty(), None).run_ended();
        self.with_editor(
            if renumber {
                editor.renumbered()
            } else {
                editor
            },
        )
    }

    /// The selection, or the line of the cursor, is moved to the register.
    #[verifier::opaque]
    pub open spec fn cut(self) -> (AppView, EffectView) {
        let (s, e) = self.editor.copy_range();
        let t = self.editor.slice(s, e);
        if t.len() == 0 {
            (self, EffectView::Nothing)
        } else {
            (
                AppView { register: t, ..self }.cut_out(s, e, has_char(t, '\n')).say("Cut"@),
                EffectView::Copy(t),
            )
        }
    }

    /// A text is pasted as a step of its own, if there is any.
    #[verifier::opaque]
    pub open spec fn pasted(self, text: Seq<char>) -> AppView {
        if text.len() == 0 {
            self
        } else {
            self.with_editor(self.editor.run_ended().inserted(text).run_ended()).say("Pasted"@)
        }
    }

    /// The line of the cursor is moved to the register.
    #[verifier::opaque]
    pub open spec fn line_deleted(self) -> (AppView, EffectView) {
        let (s, e) = self.editor.line_range(self.editor.cursor_line());
        let t = self.editor.slice(s, e);
        if t.len() == 0 {
            (self, EffectView::Nothing)
        } else {
            (AppView { register: t, ..self }.cut_out(s, e, true), EffectView::Copy(t))
        }
    }

    /// The line of the cursor is in the register.
    #[verifier::opaque]
    pub open spec fn line_yanked(self) -> (AppView, EffectView) {
        let (s, e) = self.editor.line_range(self.editor.cursor_line());
        let t = self.editor.slice(s, e);
        if t.len() == 0 {
            (self, EffectView::Nothing)
        } else {
            (AppView { register: t, ..self }.say("Yanked line"@), EffectView::Copy(t))
        }
    }

    /// The link or footnote at the cursor is followed.
    #[verifier::opaque]
    pub open spec fn link_followed(self) -> AppView {
        match followed(self.editor.doc.text, self.editor.cursor.byte as int) {
            FollowView::Jump(byte) => self.jumped(byte as int),
            FollowView::External(url) => self.ask(PromptState::OpenUrl { url }),
            FollowView::Say(text) => self.say(text),
        }
    }

    /// A command of the editor's text, or `None` for one of another kind.
    #[verifier::opaque]
    pub open spec fn text_command(self, action: Action) -> Option<EditorView> {
        let e = self.editor;
        match action {
            Action::Bold => Some(e.inline_toggled("**"@)),
            Action::Italic => Some(e.inline_toggled("*"@)),
            Action::Strikethrough => Some(e.inline_toggled("~~"@)),
            Action::InlineCode => Some(e.inline_toggled("`"@)),
            Action::Link => Some(e.link_inserted()),
            Action::CycleHeading => Some(e.line_heading_cycled()),
            Action::ToggleQuote => Some(e.line_prefix_toggled("> "@)),
            Action::ToggleBullet => Some(e.line_prefix_toggled("- "@)),
            Action::ToggleTask => Some(e.line_task_toggled()),
            _ => None,
        }
    }

    /// A command of the views and of the files, which has no effect outside.
    #[verifier::opaque]
    pub open spec fn view_command(self, action: Action) -> Option<AppView> {
        match action {
            Action::SaveAs => Some(self.save_as_current_opened()),
            Action::Quit => Some(self.quit_requested()),
            Action::Settings => Some(self.menu_opened()),
            Action::Find => Some(self.find_opened()),
            Action::TogglePreview => Some(self.preview_toggled()),
            Action::ToggleRaw => Some(self.raw_toggled()),
            Action::ToggleTable => Some(self.table_toggled()),
            Action::ToggleCursor => Some(self.shape_toggled()),
            Action::CyclePreset => Some(self.preset_set(self.desk.preset.next())),
            Action::CommandPalette => Some(self.palette_opened()),
            Action::Outline => Some(self.outline_opened()),
            Action::Diagnostics => Some(self.diagnostics_opened()),
            Action::ToggleStats => Some(self.stats_toggled()),
            Action::NewFile => Some(self.document_begun()),
            Action::OpenFile => Some(self.open_asked()),
            Action::RecentFiles => Some(self.recent_opened()),
            Action::RenameFile => Some(self.rename_asked()),
            Action::TrashFile => Some(self.ask(PromptState::TrashFile)),
            _ => None,
        }
    }

    /// A command is run, if it can be.
    #[verifier::opaque]
    pub open spec fn ran(self, action: Action) -> (AppView, EffectView) {
        if !self.enabled(action) {
            (self, EffectView::Nothing)
        } else {
            match self.text_command(action) {
                Some(e) => (self.with_editor(e), EffectView::Nothing),
                None => match self.view_command(action) {
                    Some(v) => (v, EffectView::Nothing),
                    None => match action {
                        Action::Save => self.save_begun(),
                        Action::Undo => (self.undone(), EffectView::Nothing),
                        Action::Redo => (self.redone(), EffectView::Nothing),
                        Action::SelectAll => (self.all_selected(), EffectView::Nothing),
                        Action::Copy => self.copied(),
                        Action::Cut => self.cut(),
                        Action::Paste => (self, EffectView::Paste),
                        Action::FormatTable => {
                            let (e, status) = self.editor.table_formatted();
                            (self.with_editor(e).say_if(status), EffectView::Nothing)
                        },
                        _ => (self.link_followed(), EffectView::Nothing),
                    },
                },
            }
        }
    }
}

impl App {
    #[verifier::spinoff_prover]
    pub fn action_enabled(&self, action: Action) -> (yes: bool)
        ensures
            yes == self@.enabled(action),
    {
        proof {
            reveal(App::seen);
        }
        match action {
            Action::ToggleTable
            | Action::Undo
            | Action::Redo
            | Action::SelectAll
            | Action::Copy
            | Action::Cut
            | Action::Paste
            | Action::Bold
            | Action::Italic
            | Action::Strikethrough
            | Action::InlineCode
            | Action::Link
            | Action::CycleHeading
            | Action::ToggleQuote
            | Action::ToggleBullet
            | Action::ToggleTask
            | Action::FormatTable
            | Action::FollowLink => !self.desk.mode.is_read(),
            Action::NewFile | Action::OpenFile => !self.editor.buffer().modified(),
            Action::RenameFile | Action::TrashFile => self.editor.buffer().has_path(),
            _ => true,
        }
    }

    /// Say something in the status line, if there is anything to say.
    #[verifier::spinoff_prover]
    pub fn say_if(&mut self, text: Option<&'static str>)
        requires
            old(self).wf(),
        ensures
            final(self).wf(),
            final(self)@ == old(self)@.say_if(opt_str(text)),
    {
        proof {
            reveal(App::seen);
            reveal(App::wf);
        }
        match text {
            Some(t) => self.set_status(t),
            None => {},
        }
    }

    /// Keep the scroll position of the editing view.
    #[verifier::spinoff_prover]
    pub fn save_edit_scroll(&mut self)
        requires
            old(self).wf(),
        ensures
            final(self).wf(),
            final(self)@ == old(self)@.edit_scroll_saved(),
    {
        proof {
            reveal(App::seen);
            reveal(App::wf);
        }
        proof {
            reveal(AppView::edit_scroll_saved);
        }
        if self.desk.raw_view {
            self.desk.raw_scroll_y = self.desk.scroll_y;
        } else {
            self.desk.focus_scroll_y = self.desk.scroll_y;
        }
    }

    /// Put the cursor somewhere else, without a selection.
    #[verifier::spinoff_prover]
    pub fn jump_to_byte(&mut self, byte: usize)
        requires
            old(self).wf(),
            boundary(old(self)@.editor.bytes(), byte as int),
        ensures
            final(self).wf(),
            final(self)@ == old(self)@.jumped(byte as int),
    {
        proof {
            reveal(App::seen);
            reveal(App::wf);
        }
        proof {
            reveal(AppView::jumped);
        }
        self.editor.place_cursor(byte);
        self.editor.set_anchor(None);
        self.editor.sync_goal();
        self.desk.follow_cursor = true;
    }

    /// Leave the preview.
    #[verifier::spinoff_prover]
    pub fn leave_preview(&mut self)
        requires
            old(self).wf(),
        ensures
            final(self).wf(),
            final(self)@ == old(self)@.preview_left(),
    {
        proof {
            reveal(App::seen);
            reveal(App::wf);
        }
        proof {
            reveal(AppView::preview_left);
        }
        let place: usize = self.editor.clamp_place(self.desk.read_cursor);
        self.editor.place_cursor(place);
        self.editor.sync_goal();
        self.desk.read_scroll_y = self.desk.scroll_y;
        self.desk.mode = self.desk.preset.resting_mode();
        self.desk.scroll_y = if self.desk.raw_view {
            self.desk.raw_scroll_y
        } else {
            self.desk.focus_scroll_y
        };
        self.desk.follow_cursor = false;
    }

    /// Enter or leave the preview.
    #[verifier::spinoff_prover]
    pub fn toggle_preview(&mut self)
        requires
            old(self).wf(),
        ensures
            final(self).wf(),
            final(self)@ == old(self)@.preview_toggled(),
    {
        proof {
            reveal(App::seen);
            reveal(App::wf);
        }
        proof {
            reveal(AppView::preview_toggled);
        }
        if self.desk.mode.is_read() {
            self.leave_preview();
            return;
        }
        self.save_edit_scroll();
        self.desk.read_cursor = self.editor.cursor().byte;
        self.desk.mode = Mode::Read;
        self.desk.menu = None;
        self.editor.set_anchor(None);
        self.desk.scroll_y = self.desk.read_scroll_y;
        self.desk.follow_cursor = false;
    }

    /// Toggle the raw view: every line shown as highlighted source (no markers
    /// stripped), still fully editable.
    #[verifier::spinoff_prover]
    pub fn toggle_raw_view(&mut self)
        requires
            old(self).wf(),
        ensures
            final(self).wf(),
            final(self)@ == old(self)@.raw_toggled(),
    {
        proof {
            reveal(App::seen);
            reveal(App::wf);
        }
        proof {
            reveal(AppView::raw_toggled);
        }
        if !self.desk.mode.is_read() {
            if self.desk.raw_view {
                self.desk.raw_scroll_y = self.desk.scroll_y;
                self.desk.scroll_y = self.desk.focus_scroll_y;
            } else {
                self.desk.focus_scroll_y = self.desk.scroll_y;
                self.desk.scroll_y = self.desk.raw_scroll_y;
            }
            self.desk.follow_cursor = false;
        }
        self.desk.raw_view = !self.desk.raw_view;
        let text: &'static str = if self.desk.raw_view {
            "Raw view on"
        } else {
            "Raw view off"
        };
        assert(text@ == switched(!old(self)@.desk.raw_view, "Raw view on"@, "Raw view off"@));
        self.set_status(text);
    }

    /// Switch to a specific keybinding preset (used by `^L` cycling and the
    /// settings popup, which steps in both directions).
    #[verifier::spinoff_prover]
    pub fn set_preset(&mut self, preset: Preset)
        requires
            old(self).wf(),
        ensures
            final(self).wf(),
            final(self)@ == old(self)@.preset_set(preset),
    {
        proof {
            reveal(App::seen);
            reveal(App::wf);
        }
        proof {
            reveal(AppView::preset_set);
        }
        if self.desk.mode.is_read() {
            self.leave_preview();
        }
        self.desk.preset = preset;
        self.desk.mode = preset.resting_mode();
        self.desk.pending = None;
        self.editor.set_anchor(None);
        self.desk.table_mode = false;
        let text = joined("Keybindings: ", preset.label());
        self.status = Some(text);
    }

    /// Swap the palette at runtime. Editor-level flags (`heading_glyphs`,
    /// `hard_breaks`) and config colour overrides are preserved across the swap.
    #[verifier::spinoff_prover]
    pub fn apply_theme_runtime(&mut self, name: ThemeName, variant: ThemeVariant)
        requires
            old(self).wf(),
        ensures
            final(self).wf(),
            final(self)@ == old(self)@.theme_applied(name, variant),
    {
        proof {
            reveal(App::seen);
            reveal(App::wf);
        }
        proof {
            reveal(AppView::theme_applied);
        }
        let mut theme = MarkdownTheme::named(name, variant, self.desk.truecolor);
        theme.heading_glyphs = self.theme.heading_glyphs;
        theme.hard_breaks = self.theme.hard_breaks;
        theme.apply_overrides(&self.theme_overrides, self.desk.truecolor);
        self.theme = theme;
    }

    /// Give the cursor the other shape.
    #[verifier::spinoff_prover]
    pub fn toggle_cursor_shape(&mut self)
        requires
            old(self).wf(),
        ensures
            final(self).wf(),
            final(self)@ == old(self)@.shape_toggled(),
    {
        proof {
            reveal(App::seen);
            reveal(App::wf);
        }
        proof {
            reveal(AppView::shape_toggled);
        }
        self.desk.cursor_shape = match self.desk.cursor_shape {
            CursorShape::Block => CursorShape::Line,
            CursorShape::Line => CursorShape::Block,
        };
        let text = joined("Cursor: ", self.desk.cursor_shape.label());
        self.status = Some(text);
    }

    /// Show the statistics of the document, or show them no longer.
    #[verifier::spinoff_prover]
    pub fn toggle_status_stats(&mut self)
        requires
            old(self).wf(),
        ensures
            final(self).wf(),
            final(self)@ == old(self)@.stats_toggled(),
    {
        proof {
            reveal(App::seen);
            reveal(App::wf);
        }
        proof {
            reveal(AppView::stats_toggled);
        }
        self.desk.show_status_stats = !self.desk.show_status_stats;
        let text: &'static str = if self.desk.show_status_stats {
            "Document statistics on"
        } else {
            "Document statistics off"
        };
        self.set_status(text);
    }

    /// Edit tables row by row, or no longer.
    #[verifier::spinoff_prover]
    pub fn toggle_table_mode(&mut self)
        requires
            old(self).wf(),
        ensures
            final(self).wf(),
            final(self)@ == old(self)@.table_toggled(),
    {
        proof {
            reveal(App::seen);
            reveal(App::wf);
        }
        proof {
            reveal(AppView::table_toggled);
        }
        let here = self.editor.is_in_table();
        let on = here && !self.desk.table_mode;
        self.desk.table_mode = on;
        let text: &'static str = if !here {
            "No table at cursor"
        } else if on {
            "Table row mode"
        } else {
            "Table row mode off"
        };
        assert(self@ == old(self)@.with_desk(Desk { table_mode: on, ..old(self)@.desk }));
        self.set_status(text);
    }

    /// Quit, asking for confirmation first when there are unsaved changes.
    #[verifier::spinoff_prover]
    pub fn request_quit(&mut self)
        requires
            old(self).wf(),
        ensures
            final(self).wf(),
            final(self)@ == old(self)@.quit_requested(),
    {
        proof {
            reveal(App::seen);
            reveal(App::wf);
        }
        proof {
            reveal(AppView::quit_requested);
        }
        if self.editor.buffer().modified() {
            self.prompt = Some(Prompt::ConfirmQuit);
        } else {
            self.desk.should_quit = true;
        }
    }

    /// Open the settings popup, snapshotting the current selections so Esc can
    /// revert any live theme/preset changes.
    #[verifier::spinoff_prover]
    pub fn open_menu(&mut self)
        requires
            old(self).wf(),
        ensures
            final(self).wf(),
            final(self)@ == old(self)@.menu_opened(),
    {
        proof {
            reveal(App::seen);
            reveal(App::wf);
        }
        proof {
            reveal(AppView::menu_opened);
        }
        self.desk.menu = Some(
            Menu {
                focus: 0,
                guide_scroll: 0,
                orig_preset: self.desk.preset,
                orig_theme: self.theme.name,
                orig_variant: self.theme.variant,
                orig_line_numbers: self.desk.line_numbers,
            },
        );
    }

    /// Open the command palette.
    #[verifier::spinoff_prover]
    pub fn open_palette(&mut self)
        requires
            old(self).wf(),
        ensures
            final(self).wf(),
            final(self)@ == old(self)@.palette_opened(),
    {
        proof {
            reveal(App::seen);
            reveal(App::wf);
        }
        proof {
            reveal(AppView::palette_opened);
        }
        self.desk.menu = None;
        self.palette = Some(Palette { query: String::new(), selected: 0 });
    }

    /// Open the outline of the document.
    #[verifier::spinoff_prover]
    pub fn open_outline(&mut self)
        requires
            old(self).wf(),
        ensures
            final(self).wf(),
            final(self)@ == old(self)@.outline_opened(),
    {
        proof {
            reveal(App::seen);
            reveal(App::wf);
        }
        proof {
            reveal(AppView::outline_opened);
        }
        self.palette = None;
        self.outline = Some(Outline { query: String::new(), selected: 0 });
    }

    /// Open the diagnostics of the document.
    #[verifier::spinoff_prover]
    pub fn open_diagnostics(&mut self)
        requires
            old(self).wf(),
        ensures
            final(self).wf(),
            final(self)@ == old(self)@.diagnostics_opened(),
    {
        proof {
            reveal(App::seen);
            reveal(App::wf);
        }
        proof {
            reveal(AppView::diagnostics_opened);
        }
        self.palette = None;
        let text = self.editor.text();
        let items = diagnose(text.as_str());
        assert(items@.len() == diagnosed(text@).len());
        if items.len() == 0 {
            self.set_status("No Markdown diagnostics");
            return;
        }
        self.diagnostics = Some(Diagnostics { items, selected: 0 });
    }

    /// Open the list of recent files.
    #[verifier::spinoff_prover]
    pub fn open_recent_files(&mut self)
        requires
            old(self).wf(),
        ensures
            final(self).wf(),
            final(self)@ == old(self)@.recent_opened(),
    {
        proof {
            reveal(App::seen);
            reveal(App::wf);
        }
        proof {
            reveal(AppView::recent_opened);
        }
        if self.editor.buffer().modified() {
            self.set_status("Save or discard changes before switching files");
            return;
        }
        assert(self@.recent_files.len() == self.recent_files@.len());
        if self.recent_files.len() == 0 {
            self.set_status("No recent files");
            return;
        }
        self.palette = None;
        self.recent_picker = Some(RecentPicker { query: String::new(), selected: 0 });
    }

    /// What a search starts from.
    #[verifier::spinoff_prover]
    fn search_seed(&self) -> (seed: String)
        requires
            self.wf(),
        ensures
            seed@ == self@.seed(),
    {
        proof {
            reveal(App::seen);
            reveal(App::wf);
        }
        proof {
            reveal(AppView::seed);
        }
        match self.editor.selection_range() {
            Some((s, e)) => {
                proof {
                    self.editor.lemma_ok();
                }
                let t = self.editor.slice(s, e);
                if !t.as_str().is_empty() && !contains_char(t.as_str(), '\n') && byte_length(
                    t.as_str(),
                ) <= MAX_SEED {
                    t
                } else {
                    self.last_search.clone()
                }
            },
            None => self.last_search.clone(),
        }
    }

    /// Open the find prompt, seeded with the current selection (if it is a
    /// reasonable query) or the previous search.
    #[verifier::spinoff_prover]
    pub fn open_find(&mut self)
        requires
            old(self).wf(),
        ensures
            final(self).wf(),
            final(self)@ == old(self)@.find_opened(),
    {
        proof {
            reveal(App::seen);
            reveal(App::wf);
        }
        proof {
            reveal(AppView::find_opened);
        }
        let seed = self.search_seed();
        let selection = self.editor.selection_range();
        let cursor: usize = self.editor.cursor().byte;
        self.desk.find_origin = match selection {
            Some((s, _)) => s,
            None => cursor,
        };
        self.desk.find_restore = Some(
            FindRestore { cursor, selection_anchor: self.editor.anchor() },
        );
        self.find_scope = selection;
        self.desk.search_options.selection_only = false;
        let end: usize = byte_length(seed.as_str());
        proof {
            encode_utf8_valid_utf8(seed@);
            lemma_boundary_ends(encode_utf8(seed@));
        }
        self.prompt = Some(Prompt::Find { input: seed, cursor: end });
    }

    /// Open the "Save as" prompt for an unnamed buffer.
    #[verifier::spinoff_prover]
    pub fn open_save_as(&mut self)
        requires
            old(self).wf(),
        ensures
            final(self).wf(),
            final(self)@ == old(self)@.save_as_opened(),
    {
        proof {
            reveal(App::seen);
            reveal(App::wf);
        }
        proof {
            reveal(AppView::save_as_opened);
        }
        let input = ".md".to_owned();
        proof {
            encode_utf8_valid_utf8(input@);
            lemma_boundary_ends(encode_utf8(input@));
        }
        self.prompt = Some(Prompt::SaveAs { input, cursor: 0, error: None });
    }

    /// Open the "Save as" prompt with the name that the document has.
    #[verifier::spinoff_prover]
    pub fn open_save_as_current(&mut self)
        requires
            old(self).wf(),
        ensures
            final(self).wf(),
            final(self)@ == old(self)@.save_as_current_opened(),
    {
        proof {
            reveal(App::seen);
            reveal(App::wf);
        }
        proof {
            reveal(AppView::save_as_current_opened);
        }
        let known = match self.editor.buffer().path() {
            Some(p) => Some(p.to_owned()),
            None => None,
        };
        match known {
            Some(input) => {
                let cursor: usize = byte_length(input.as_str());
                proof {
                    encode_utf8_valid_utf8(input@);
                    lemma_boundary_ends(encode_utf8(input@));
                }
                self.prompt = Some(Prompt::SaveAs { input, cursor, error: None });
            },
            None => self.open_save_as(),
        }
    }

    /// Save the document.
    #[verifier::spinoff_prover]
    pub fn save(&mut self) -> (effect: Effect)
        requires
            old(self).wf(),
        ensures
            final(self).wf(),
            (final(self)@, effect@) == old(self)@.save_begun(),
    {
        proof {
            reveal(App::seen);
            reveal(App::wf);
        }
        proof {
            reveal(AppView::save_begun);
        }
        if self.editor.buffer().has_path() {
            Effect::CheckDisk
        } else {
            self.open_save_as();
            Effect::Nothing
        }
    }

    /// Remember the file that is open, with where it is left.
    #[verifier::spinoff_prover]
    pub fn remember_current_file(&mut self)
        requires
            old(self).wf(),
        ensures
            final(self).wf(),
            final(self)@ == old(self)@.file_remembered(),
    {
        proof {
            reveal(App::seen);
            reveal(App::wf);
        }
        proof {
            reveal(AppView::file_remembered);
        }
        let known = match self.editor.buffer().path_key() {
            Some(k) => Some(k.to_owned()),
            None => None,
        };
        match known {
            Some(path) => {
                self.save_edit_scroll();
                let file = RecentFile {
                    path,
                    cursor: self.editor.cursor().byte,
                    focus_scroll: self.desk.focus_scroll_y,
                    raw_scroll: self.desk.raw_scroll_y,
                    read_scroll: self.desk.read_scroll_y,
                };
                let mut files: Vec<RecentFile> = Vec::new();
                std::mem::swap(&mut files, &mut self.recent_files);
                self.recent_files = remember(files, file);
            },
            None => {},
        }
    }

    /// Edit another document; `unsaved` says that it differs from its file.
    #[verifier::spinoff_prover]
    pub fn set_document(&mut self, buffer: TextBuffer, unsaved: bool)
        requires
            old(self).wf(),
            2 * buffer@.bytes().len() + 2 <= usize::MAX,
        ensures
            final(self).wf(),
            final(self)@ == old(self)@.document_set(
                buffer@,
                if unsaved {
                    HistoryView { saved_depth: None, ..HistoryView::fresh() }
                } else {
                    HistoryView::fresh()
                },
            ),
    {
        proof {
            reveal(App::seen);
            reveal(App::wf);
        }
        proof {
            reveal(AppView::document_set);
        }
        self.editor.reset(buffer, unsaved);
        self.desk.scroll_y = 0;
        self.desk.recovery_written_version = self.editor.version();
    }

    /// Go back to the top in every view.
    #[verifier::spinoff_prover]
    pub fn reset_file_view(&mut self)
        requires
            old(self).wf(),
        ensures
            final(self).wf(),
            final(self)@ == old(self)@.file_view_reset(),
    {
        proof {
            reveal(App::seen);
            reveal(App::wf);
        }
        proof {
            reveal(AppView::file_view_reset);
        }
        proof {
            self.editor.lemma_ok();
            encode_utf8_valid_utf8(self@.editor.doc.text);
            lemma_boundary_ends(self@.editor.bytes());
        }
        self.editor.place_cursor(0);
        self.desk.scroll_y = 0;
        self.desk.focus_scroll_y = 0;
        self.desk.raw_scroll_y = 0;
        self.desk.read_scroll_y = 0;
        self.desk.mode = self.desk.preset.resting_mode();
        self.desk.follow_cursor = true;
    }

    /// Begin a new document.
    #[verifier::spinoff_prover]
    pub fn new_document(&mut self)
        requires
            old(self).wf(),
        ensures
            final(self).wf(),
            final(self)@ == old(self)@.document_begun(),
    {
        proof {
            reveal(App::seen);
            reveal(App::wf);
        }
        proof {
            reveal(AppView::document_begun);
        }
        if self.editor.buffer().modified() {
            self.set_status("Save or discard changes before creating a document");
            return;
        }
        self.remember_current_file();
        let buffer = TextBuffer::empty();
        assert(buffer@.bytes().len() == 0) by {
            assert(buffer@.text =~= Seq::<char>::empty());
            assert(encode_utf8(Seq::<char>::empty()) =~= Seq::<u8>::empty());
        }
        self.set_document(buffer, false);
        self.reset_file_view();
        self.set_status("New document");
    }

    /// Ask for the name of the file to open.
    #[verifier::spinoff_prover]
    pub fn ask_open_file(&mut self)
        requires
            old(self).wf(),
        ensures
            final(self).wf(),
            final(self)@ == old(self)@.open_asked(),
    {
        proof {
            reveal(App::seen);
            reveal(App::wf);
        }
        proof {
            reveal(AppView::open_asked);
        }
        let input = String::new();
        proof {
            encode_utf8_valid_utf8(input@);
            lemma_boundary_ends(encode_utf8(input@));
        }
        self.prompt = Some(Prompt::OpenFile { input, cursor: 0, error: None });
    }

    /// Ask for the name that the file gets.
    #[verifier::spinoff_prover]
    pub fn ask_rename_file(&mut self)
        requires
            old(self).wf(),
        ensures
            final(self).wf(),
            final(self)@ == old(self)@.rename_asked(),
    {
        proof {
            reveal(App::seen);
            reveal(App::wf);
        }
        proof {
            reveal(AppView::rename_asked);
        }
        let known = match self.editor.buffer().path() {
            Some(p) => Some(p.to_owned()),
            None => None,
        };
        match known {
            Some(input) => {
                let cursor: usize = byte_length(input.as_str());
                proof {
                    encode_utf8_valid_utf8(input@);
                    lemma_boundary_ends(encode_utf8(input@));
                }
                self.prompt = Some(Prompt::RenameFile { input, cursor, error: None });
            },
            None => {},
        }
    }

    /// Select everything.
    #[verifier::spinoff_prover]
    pub fn select_all(&mut self)
        requires
            old(self).wf(),
        ensures
            final(self).wf(),
            final(self)@ == old(self)@.all_selected(),
    {
        proof {
            reveal(App::seen);
            reveal(App::wf);
        }
        proof {
            reveal(AppView::all_selected);
        }
        proof {
            encode_utf8_valid_utf8(self@.editor.doc.text);
            lemma_boundary_ends(self@.editor.bytes());
        }
        self.editor.set_anchor(Some(0));
        let end: usize = self.editor.buffer().len_bytes();
        self.editor.place_cursor(end);
        self.editor.sync_goal();
        self.editor.break_run();
    }

    /// Take the last edit back.
    #[verifier::spinoff_prover]
    pub fn undo(&mut self)
        requires
            old(self).wf(),
        ensures
            final(self).wf(),
            final(self)@ == old(self)@.undone(),
    {
        proof {
            reveal(App::seen);
            reveal(App::wf);
        }
        proof {
            reveal(AppView::undone);
        }
        if !self.editor.undo() {
            self.set_status("Nothing to undo");
        }
    }

    /// Make the last edit that was taken back again.
    #[verifier::spinoff_prover]
    pub fn redo(&mut self)
        requires
            old(self).wf(),
        ensures
            final(self).wf(),
            final(self)@ == old(self)@.redone(),
    {
        proof {
            reveal(App::seen);
            reveal(App::wf);
        }
        proof {
            reveal(AppView::redone);
        }
        if !self.editor.redo() {
            self.set_status("Nothing to redo");
        }
    }

    /// Copy the selection (or the current line) as source markdown.
    #[verifier::spinoff_prover]
    pub fn copy(&mut self) -> (effect: Effect)
        requires
            old(self).wf(),
        ensures
            final(self).wf(),
            (final(self)@, effect@) == old(self)@.copied(),
    {
        proof {
            reveal(App::seen);
            reveal(App::wf);
        }
        proof {
            reveal(AppView::copied);
        }
        let (s, e) = self.editor.copy_range();
        let text = self.editor.slice(s, e);
        self.clipboard.set(text.as_str(), true, false);
        self.set_status("Copied");
        Effect::Copy(text)
    }

    /// Cut the range between two places out, as a step of its own.
    #[verifier::spinoff_prover]
    fn cut_range(&mut self, s: usize, e: usize, renumber: bool)
        requires
            old(self).wf(),
            s <= e,
            boundary(old(self)@.editor.bytes(), s as int),
            boundary(old(self)@.editor.bytes(), e as int),
        ensures
            final(self).wf(),
            final(self)@ == old(self)@.cut_out(s as int, e as int, renumber),
    {
        proof {
            reveal(App::seen);
            reveal(App::wf);
        }
        proof {
            reveal(AppView::cut_out);
        }
        self.editor.break_run();
        self.editor.replace_range(s, e, "");
        proof {
            reveal_strlit("");
            assert(""@ =~= Seq::<char>::empty());
        }
        self.editor.break_run();
        if renumber {
            self.editor.renumber_ordered_run();
        }
    }

    /// Cut the selection (or the current line) as source markdown.
    #[verifier::spinoff_prover]
    pub fn cut(&mut self) -> (effect: Effect)
        requires
            old(self).wf(),
        ensures
            final(self).wf(),
            (final(self)@, effect@) == old(self)@.cut(),
    {
        proof {
            reveal(App::seen);
            reveal(App::wf);
        }
        proof {
            reveal(AppView::cut);
        }
        let (s, e) = self.editor.copy_range();
        let text = self.editor.slice(s, e);
        if text.as_str().is_empty() {
            return Effect::Nothing;
        }
        let structural = contains_char(text.as_str(), '\n');
        self.clipboard.set(text.as_str(), true, false);
        self.cut_range(s, e, structural);
        self.set_status("Cut");
        Effect::Copy(text)
    }

    /// Paste what the system clipboard gave, or the register, replacing the selection if
    /// there is one.
    #[verifier::spinoff_prover]
    pub fn paste(&mut self, system: Option<String>)
        requires
            old(self).wf(),
        ensures
            final(self).wf(),
            final(self)@ == old(self)@.pasted(
                match system {
                    Some(t) => t@,
                    None => old(self)@.register,
                },
            ),
    {
        proof {
            reveal(App::seen);
            reveal(App::wf);
        }
        let text = self.clipboard.get(system);
        self.paste_text(text.as_str());
    }

    /// Paste a text, replacing the selection if there is one.
    #[verifier::spinoff_prover]
    pub fn paste_text(&mut self, text: &str)
        requires
            old(self).wf(),
        ensures
            final(self).wf(),
            final(self)@ == old(self)@.pasted(text@),
    {
        proof {
            reveal(App::seen);
            reveal(App::wf);
        }
        proof {
            reveal(AppView::pasted);
        }
        if text.is_empty() {
            return;
        }
        self.editor.break_run();
        self.editor.insert(text);
        self.editor.break_run();
        self.set_status("Pasted");
    }

    /// Delete the line of the cursor.
    #[verifier::spinoff_prover]
    pub fn delete_line(&mut self) -> (effect: Effect)
        requires
            old(self).wf(),
        ensures
            final(self).wf(),
            (final(self)@, effect@) == old(self)@.line_deleted(),
    {
        proof {
            reveal(App::seen);
            reveal(App::wf);
        }
        proof {
            reveal(AppView::line_deleted);
        }
        let line: usize = self.editor.cursor_line();
        let (s, e) = self.editor.line_range(line);
        let text = self.editor.slice(s, e);
        if text.as_str().is_empty() {
            return Effect::Nothing;
        }
        self.clipboard.set(text.as_str(), true, false);
        self.cut_range(s, e, true);
        Effect::Copy(text)
    }

    /// Copy the line of the cursor.
    #[verifier::spinoff_prover]
    pub fn yank_line(&mut self) -> (effect: Effect)
        requires
            old(self).wf(),
        ensures
            final(self).wf(),
            (final(self)@, effect@) == old(self)@.line_yanked(),
    {
        proof {
            reveal(App::seen);
            reveal(App::wf);
        }
        proof {
            reveal(AppView::line_yanked);
        }
        let line: usize = self.editor.cursor_line();
        let (s, e) = self.editor.line_range(line);
        let text = self.editor.slice(s, e);
        if text.as_str().is_empty() {
            return Effect::Nothing;
        }
        self.clipboard.set(text.as_str(), true, false);
        self.set_status("Yanked line");
        Effect::Copy(text)
    }

    /// Follow the link or footnote at the cursor.
    #[verifier::spinoff_prover]
    pub fn follow_link(&mut self)
        requires
            old(self).wf(),
        ensures
            final(self).wf(),
            final(self)@ == old(self)@.link_followed(),
    {
        proof {
            reveal(App::seen);
            reveal(App::wf);
        }
        proof {
            reveal(AppView::link_followed);
        }
        let text = self.editor.text();
        let at: usize = self.editor.cursor().byte;
        match follow_link(text.as_str(), at) {
            Follow::Jump(byte) => self.jump_to_byte(byte),
            Follow::External(url) => {
                self.prompt = Some(Prompt::OpenUrl { url });
            },
            Follow::Say(text) => {
                self.status = Some(text);
            },
        }
    }

    /// Run a command on the text, if it is one.
    #[verifier::spinoff_prover]
    fn run_text_command(&mut self, action: Action) -> (done: bool)
        requires
            old(self).wf(),
        ensures
            final(self).wf(),
            done == (old(self)@.text_command(action) is Some),
            final(self)@ == match old(self)@.text_command(action) {
                Some(e) => old(self)@.with_editor(e),
                None => old(self)@,
            },
    {
        proof {
            reveal(App::seen);
            reveal(App::wf);
        }
        proof {
            reveal(AppView::text_command);
        }
        match action {
            Action::Bold => self.editor.toggle_inline("**"),
            Action::Italic => self.editor.toggle_inline("*"),
            Action::Strikethrough => self.editor.toggle_inline("~~"),
            Action::InlineCode => self.editor.toggle_inline("`"),
            Action::Link => self.editor.insert_link(),
            Action::CycleHeading => self.editor.cycle_heading(),
            Action::ToggleQuote => self.editor.toggle_line_prefix("> "),
            Action::ToggleBullet => self.editor.toggle_line_prefix("- "),
            Action::ToggleTask => self.editor.toggle_task(),
            _ => {
                return false;
            },
        }
        true
    }

    /// Run a command of the views and of the files, if it is one.
    #[verifier::spinoff_prover]
    fn run_view_command(&mut self, action: Action) -> (done: bool)
        requires
            old(self).wf(),
        ensures
            final(self).wf(),
            done == (old(self)@.view_command(action) is Some),
            final(self)@ == match old(self)@.view_command(action) {
                Some(v) => v,
                None => old(self)@,
            },
    {
        proof {
            reveal(App::seen);
            reveal(App::wf);
        }
        proof {
            reveal(AppView::view_command);
        }
        match action {
            Action::SaveAs => self.open_save_as_current(),
            Action::Quit => self.request_quit(),
            Action::Settings => self.open_menu(),
            Action::Find => self.open_find(),
            Action::TogglePreview => self.toggle_preview(),
            Action::ToggleRaw => self.toggle_raw_view(),
            Action::ToggleTable => self.toggle_table_mode(),
            Action::ToggleCursor => self.toggle_cursor_shape(),
            Action::CyclePreset => self.set_preset(self.desk.preset.step(true)),
            Action::CommandPalette => self.open_palette(),
            Action::Outline => self.open_outline(),
            Action::Diagnostics => self.open_diagnostics(),
            Action::ToggleStats => self.toggle_status_stats(),
            Action::NewFile => self.new_document(),
            Action::OpenFile => self.ask_open_file(),
            Action::RecentFiles => self.open_recent_files(),
            Action::RenameFile => self.ask_rename_file(),
            Action::TrashFile => {
                self.prompt = Some(Prompt::TrashFile);
            },
            _ => {
                return false;
            },
        }
        true
    }

    /// Run a command.
    #[verifier::spinoff_prover]
    pub fn run_action(&mut self, action: Action) -> (effect: Effect)
        requires
            old(self).wf(),
        ensures
            final(self).wf(),
            (final(self)@, effect@) == old(self)@.ran(action),
    {
        proof {
            reveal(App::seen);
            reveal(App::wf);
        }
        proof {
            reveal(AppView::ran);
        }
        if !self.action_enabled(action) {
            return Effect::Nothing;
        }
        if self.run_text_command(action) {
            return Effect::Nothing;
        }
        if self.run_view_command(action) {
            return Effect::Nothing;
        }
        match action {
            Action::Save => self.save(),
            Action::Undo => {
                self.undo();
                Effect::Nothing
            },
            Action::Redo => {
                self.redo();
                Effect::Nothing
            },
            Action::SelectAll => {
                self.select_all();
                Effect::Nothing
            },
            Action::Copy => self.copy(),
            Action::Cut => self.cut(),
            Action::Paste => Effect::Paste,
            Action::FormatTable => {
                let status = self.editor.format_table();
                self.say_if(status);
                Effect::Nothing
            },
            _ => {
                self.follow_link();
                Effect::Nothing
            },
        }
    }
}

} // verus!
