//! Application state and input handling.
//!
//! The editor supports four keybinding presets selected by config: standard and
//! nano/emacs are modeless (printable keys insert; navigation/editing keys move
//! and delete), while vim is modal (Normal/Insert/Visual). `^S` saves, `^Q`
//! quits, and `^L` cycles presets. What a key asks of the world outside (files, the
//! clipboard, a browser) comes back as an [`Effect`]; its outcome is handed in again.

use vstd::prelude::*;
use vstd::utf8::*;

use crate::buffer::{BufferView, FilePath, PathView, TextBuffer};
use crate::bytes::boundary;
use crate::clipboard::Clipboard;
use crate::config::{plain_setting, Config, ConfigView};
use crate::diagnostics::{diagnostic_views, Diagnostic, DiagnosticView};
use crate::editor::{no_blocks, Editor, EditorView};
use crate::markdown::theme::{
    pair_views, selected, with_overrides, MarkdownTheme, ThemeName, ThemeVariant,
};
use crate::matches::SearchOptions;
use crate::search::FindRestore;
use crate::session::{recent_views, RecentFile, RecentPicker, RecentView};
use crate::strings::{opt_view, same, to_ascii_lower, trim};

pub mod auto_save;
pub mod command_laws;
pub mod commands;
pub mod file_laws;
pub mod files;
pub mod key_laws;
pub mod keys;
pub mod laws;
pub mod live;
pub mod menu;
pub mod mouse;
pub mod palette;
pub mod pickers;
pub mod prompt;
pub mod rows;
pub mod screen;
pub mod state;
pub mod status;

verus! {

/// The editor's input mode. Standard/nano/emacs rest in `Insert`; vim rests in
/// `Normal` and adds `Visual`; `Read` is the scroll-only rendered preview (^P).
#[derive(Clone, Copy, PartialEq, Eq, Debug, Structural)]
pub enum Mode {
    /// Vim normal mode (commands/motions).
    Normal,
    /// Inserting text (also the resting mode for nano/emacs presets).
    Insert,
    /// Vim visual mode (selection via motions).
    Visual,
    /// Rendered preview, scroll-only.
    Read,
}

impl Mode {
    pub fn is_read(self) -> (yes: bool)
        ensures
            yes == (self == Mode::Read),
    {
        self == Mode::Read
    }
}

/// Keybinding preset, selected by config.
#[derive(Clone, Copy, PartialEq, Eq, Debug, Structural)]
pub enum Preset {
    Standard,
    Vim,
    Nano,
    Emacs,
}

impl Preset {
    pub open spec fn label_text(self) -> Seq<char> {
        match self {
            Preset::Standard => "standard"@,
            Preset::Vim => "vim"@,
            Preset::Nano => "nano"@,
            Preset::Emacs => "emacs"@,
        }
    }

    pub fn label(self) -> (label: &'static str)
        ensures
            label@ == self.label_text(),
    {
        match self {
            Preset::Standard => "standard",
            Preset::Vim => "vim",
            Preset::Nano => "nano",
            Preset::Emacs => "emacs",
        }
    }

    /// The mode the editor rests in.
    pub open spec fn resting(self) -> Mode {
        match self {
            Preset::Vim => Mode::Normal,
            _ => Mode::Insert,
        }
    }

    /// The mode the editor rests in.
    pub fn resting_mode(self) -> (mode: Mode)
        ensures
            mode == self.resting(),
    {
        match self {
            Preset::Vim => Mode::Normal,
            _ => Mode::Insert,
        }
    }

    /// The preset that `^L` goes on to.
    pub open spec fn next(self) -> Preset {
        match self {
            Preset::Standard => Preset::Vim,
            Preset::Vim => Preset::Nano,
            Preset::Nano => Preset::Emacs,
            Preset::Emacs => Preset::Standard,
        }
    }

    /// The preset before this one.
    pub open spec fn prev(self) -> Preset {
        match self {
            Preset::Standard => Preset::Emacs,
            Preset::Vim => Preset::Standard,
            Preset::Nano => Preset::Vim,
            Preset::Emacs => Preset::Nano,
        }
    }

    /// The preset after, or before, this one.
    pub fn step(self, forward: bool) -> (p: Preset)
        ensures
            p == (if forward {
                self.next()
            } else {
                self.prev()
            }),
    {
        match (self, forward) {
            (Preset::Standard, true) => Preset::Vim,
            (Preset::Vim, true) => Preset::Nano,
            (Preset::Nano, true) => Preset::Emacs,
            (Preset::Emacs, true) => Preset::Standard,
            (Preset::Standard, false) => Preset::Emacs,
            (Preset::Vim, false) => Preset::Standard,
            (Preset::Nano, false) => Preset::Vim,
            (Preset::Emacs, false) => Preset::Nano,
        }
    }
}

/// Cycling through the presets visits all four and comes back.
pub proof fn lemma_presets_cycle(p: Preset)
    ensures
        p.next().next().next().next() == p,
        p.next() != p,
        p.next().next() != p,
        p.next().prev() == p,
        p.prev().next() == p,
{
}

#[derive(Clone, Copy, PartialEq, Eq, Debug, Structural)]
pub enum LineNumbers {
    Off,
    Absolute,
    Relative,
}

impl LineNumbers {
    pub open spec fn config_text(self) -> Seq<char> {
        match self {
            LineNumbers::Off => "off"@,
            LineNumbers::Absolute => "absolute"@,
            LineNumbers::Relative => "relative"@,
        }
    }

    /// The value that selects this in the configuration.
    pub fn config_name(self) -> (name: &'static str)
        ensures
            name@ == self.config_text(),
    {
        match self {
            LineNumbers::Off => "off",
            LineNumbers::Absolute => "absolute",
            LineNumbers::Relative => "relative",
        }
    }

    /// The choice after, or before, this one.
    pub open spec fn stepped(self, forward: bool) -> LineNumbers {
        match (self, forward) {
            (LineNumbers::Off, true) => LineNumbers::Absolute,
            (LineNumbers::Absolute, true) => LineNumbers::Relative,
            (LineNumbers::Relative, true) => LineNumbers::Off,
            (LineNumbers::Off, false) => LineNumbers::Relative,
            (LineNumbers::Absolute, false) => LineNumbers::Off,
            (LineNumbers::Relative, false) => LineNumbers::Absolute,
        }
    }

    /// The choice after, or before, this one.
    pub fn step(self, forward: bool) -> (n: LineNumbers)
        ensures
            n == self.stepped(forward),
    {
        match (self, forward) {
            (LineNumbers::Off, true) => LineNumbers::Absolute,
            (LineNumbers::Absolute, true) => LineNumbers::Relative,
            (LineNumbers::Relative, true) => LineNumbers::Off,
            (LineNumbers::Off, false) => LineNumbers::Relative,
            (LineNumbers::Absolute, false) => LineNumbers::Off,
            (LineNumbers::Relative, false) => LineNumbers::Absolute,
        }
    }
}

#[derive(Clone, Copy, PartialEq, Eq, Debug, Structural)]
pub enum CursorShape {
    Block,
    Line,
}

impl CursorShape {
    pub open spec fn label_text(self) -> Seq<char> {
        match self {
            CursorShape::Block => "block"@,
            CursorShape::Line => "line"@,
        }
    }

    pub fn label(self) -> (label: &'static str)
        ensures
            label@ == self.label_text(),
    {
        match self {
            CursorShape::Block => "block",
            CursorShape::Line => "line",
        }
    }
}

/// Wall-clock durations of the most recent expensive pipeline steps, in microseconds. Zero
/// means "not run yet this session".
#[derive(Clone, Copy, PartialEq, Eq, Debug, Structural)]
pub struct DebugTimings {
    pub last_layout_us: u128,
    /// Last whole-document block partition.
    pub last_parse_us: u128,
    /// Last hybrid/raw/preview structure build.
    pub last_view_build_us: u128,
    /// Last viewport assembly (rendering the visible window's rows).
    pub last_assemble_us: u128,
}

/// The interactive settings popup.
#[derive(Clone, Copy, PartialEq, Eq, Debug, Structural)]
pub struct Menu {
    /// Focused setting row (0 = keybindings, 1 = theme, 2 = appearance,
    /// 3 = line numbers, 4 = save as defaults).
    pub focus: usize,
    /// Scroll offset into the keybinding guide below the settings rows.
    pub guide_scroll: usize,
    /// What to restore on Esc — captured when the popup opened.
    pub orig_preset: Preset,
    pub orig_theme: ThemeName,
    pub orig_variant: ThemeVariant,
    pub orig_line_numbers: LineNumbers,
}

/// The state of the application beside the document, as far as it is plain values.
#[derive(Clone, Copy, PartialEq, Eq, Debug, Structural)]
pub struct Desk {
    pub scroll_y: usize,
    pub focus_scroll_y: usize,
    pub raw_scroll_y: usize,
    pub read_scroll_y: usize,
    pub read_cursor: usize,
    pub should_quit: bool,
    /// Whether to quit once the document is saved.
    pub quit_after_save: bool,
    pub mode: Mode,
    pub cursor_shape: CursorShape,
    pub table_mode: bool,
    /// Show every line as highlighted source (no markers stripped).
    pub raw_view: bool,
    pub preset: Preset,
    pub line_numbers: LineNumbers,
    /// Leader key of a pending multi-key command (Vim `d`/`g`/`y`, Emacs `C-x`).
    pub pending: Option<char>,
    /// Whether drawing should keep the cursor in view. Cleared by wheel
    /// scrolling so the user can read elsewhere; any keypress restores it.
    pub follow_cursor: bool,
    /// Byte where the left mouse button went down (drag-select origin).
    pub mouse_press_byte: Option<usize>,
    pub scrolloff: usize,
    /// Blank columns left of the editor content (config `editor.left_margin`).
    pub left_margin: usize,
    pub viewport_height: usize,
    /// Columns left of the content area (margin plus line-number gutter) as
    /// drawn last frame; mouse clicks subtract it to find the content column.
    pub left_offset: usize,
    /// Total rendered rows of the read-mode preview, as drawn last.
    pub preview_rows: usize,
    /// Save automatically after an idle pause (config `editor.auto_save`).
    pub auto_save: bool,
    pub show_status_stats: bool,
    pub recovery_written_version: u64,
    /// Where the current find session started; incremental typing re-searches
    /// from here instead of walking away down the file.
    pub find_origin: usize,
    pub find_restore: Option<FindRestore>,
    pub search_options: SearchOptions,
    /// The settings popup, when open. Captures all input while active, like a prompt.
    pub menu: Option<Menu>,
    pub truecolor: bool,
}

/// A question on the bottom line. Where text is typed, `cursor` is a byte offset into it.
pub enum Prompt {
    /// Editing a filename to save under.
    SaveAs { input: String, cursor: usize, error: Option<String> },
    /// Confirming an overwrite of an existing path; `input` is kept so `n` can
    /// return to editing the name.
    Overwrite { path: FilePath, input: String },
    /// Confirming a quit while the buffer has unsaved changes.
    ConfirmQuit,
    /// The file changed on disk since it was read.
    ExternalChange { error: Option<String> },
    /// Incremental find; the current match is shown as the selection.
    Find { input: String, cursor: usize },
    /// Replace target for the find `query`.
    Replace { query: String, input: String, cursor: usize },
    /// Unsaved work of an earlier session was found.
    Recovery { error: Option<String> },
    /// Confirming that a web address is opened.
    OpenUrl { url: String },
    /// Editing the name of a file to open.
    OpenFile { input: String, cursor: usize, error: Option<String> },
    /// Editing the name that the file gets.
    RenameFile { input: String, cursor: usize, error: Option<String> },
    /// Confirming that the file is moved to the trash.
    TrashFile,
}

/// What a [`Prompt`] says.
pub enum PromptState {
    SaveAs { input: Seq<char>, cursor: int, error: Option<Seq<char>> },
    Overwrite { path: PathView, input: Seq<char> },
    ConfirmQuit,
    ExternalChange { error: Option<Seq<char>> },
    Find { input: Seq<char>, cursor: int },
    Replace { query: Seq<char>, input: Seq<char>, cursor: int },
    Recovery { error: Option<Seq<char>> },
    OpenUrl { url: Seq<char> },
    OpenFile { input: Seq<char>, cursor: int, error: Option<Seq<char>> },
    RenameFile { input: Seq<char>, cursor: int, error: Option<Seq<char>> },
    TrashFile,
}

impl View for Prompt {
    type V = PromptState;

    open spec fn view(&self) -> PromptState {
        match self {
            Prompt::SaveAs { input, cursor, error } => PromptState::SaveAs {
                input: input@,
                cursor: *cursor as int,
                error: opt_view(*error),
            },
            Prompt::Overwrite { path, input } => PromptState::Overwrite {
                path: path@,
                input: input@,
            },
            Prompt::ConfirmQuit => PromptState::ConfirmQuit,
            Prompt::ExternalChange { error } => PromptState::ExternalChange {
                error: opt_view(*error),
            },
            Prompt::Find { input, cursor } => PromptState::Find {
                input: input@,
                cursor: *cursor as int,
            },
            Prompt::Replace { query, input, cursor } => PromptState::Replace {
                query: query@,
                input: input@,
                cursor: *cursor as int,
            },
            Prompt::Recovery { error } => PromptState::Recovery { error: opt_view(*error) },
            Prompt::OpenUrl { url } => PromptState::OpenUrl { url: url@ },
            Prompt::OpenFile { input, cursor, error } => PromptState::OpenFile {
                input: input@,
                cursor: *cursor as int,
                error: opt_view(*error),
            },
            Prompt::RenameFile { input, cursor, error } => PromptState::RenameFile {
                input: input@,
                cursor: *cursor as int,
                error: opt_view(*error),
            },
            Prompt::TrashFile => PromptState::TrashFile,
        }
    }
}

impl PromptState {
    /// Whether the cursor is between characters of the text.
    pub open spec fn ok(self) -> bool {
        match self {
            PromptState::SaveAs { input, cursor, error } => boundary(encode_utf8(input), cursor),
            PromptState::Find { input, cursor } => boundary(encode_utf8(input), cursor),
            PromptState::Replace { query, input, cursor } => boundary(encode_utf8(input), cursor),
            PromptState::OpenFile { input, cursor, error } => boundary(encode_utf8(input), cursor),
            PromptState::RenameFile { input, cursor, error } => boundary(
                encode_utf8(input),
                cursor,
            ),
            _ => true,
        }
    }
}

/// A list that is filtered by a query, and the entry that is selected.
#[derive(Debug)]
pub struct Palette {
    pub query: String,
    pub selected: usize,
}

/// The outline of the document, filtered by a query, and the heading that is selected.
#[derive(Debug)]
pub struct Outline {
    pub query: String,
    pub selected: usize,
}

/// The diagnostics that were found, and the one that is selected.
pub struct Diagnostics {
    pub items: Vec<Diagnostic>,
    pub selected: usize,
}

/// A query and the entry that is selected.
pub struct PickerView {
    pub query: Seq<char>,
    pub selected: usize,
}

/// What a [`Diagnostics`] says.
pub struct DiagnosticsView {
    pub items: Seq<DiagnosticView>,
    pub selected: usize,
}

impl View for Palette {
    type V = PickerView;

    open spec fn view(&self) -> PickerView {
        PickerView { query: self.query@, selected: self.selected }
    }
}

impl View for Outline {
    type V = PickerView;

    open spec fn view(&self) -> PickerView {
        PickerView { query: self.query@, selected: self.selected }
    }
}

impl View for RecentPicker {
    type V = PickerView;

    open spec fn view(&self) -> PickerView {
        PickerView { query: self.query@, selected: self.selected }
    }
}

impl View for Diagnostics {
    type V = DiagnosticsView;

    open spec fn view(&self) -> DiagnosticsView {
        DiagnosticsView { items: diagnostic_views(self.items@), selected: self.selected }
    }
}

/// What is to be done outside; its outcome is handed in again.
pub enum Effect {
    Nothing,
    /// Hand a copy to the system clipboard. The register has it.
    Copy(String),
    /// Read the system clipboard, and paste.
    Paste,
    /// Look at the state of the file, to save the document.
    CheckDisk,
    /// Write the document to its file.
    Write,
    /// Read the file again.
    Reload,
    /// See what is at a path, to save the document there.
    Probe(String),
    /// Write the document to a path.
    WriteAs(FilePath),
    /// Read the file at a path, to edit it.
    Open(String),
    /// Read a recent file, to edit it.
    OpenRecent(RecentFile),
    /// Rename the file.
    Rename(String),
    /// Move the file to the trash.
    Trash,
    /// Throw the recovery of the document away.
    DiscardRecovery,
    /// Open a web address in a browser.
    OpenUrl(String),
    /// Write settings to the configuration file.
    SaveSettings {
        path: String,
        keybindings: String,
        line_numbers: String,
        theme: String,
        variant: String,
    },
    /// Keep the document for recovery.
    WriteRecovery,
    /// Look at the state of the file, to save the document automatically.
    CheckDiskForAutoSave,
    /// Write the document to its file, automatically.
    AutoSave,
}

/// What an [`Effect`] says.
pub enum EffectView {
    Nothing,
    Copy(Seq<char>),
    Paste,
    CheckDisk,
    Write,
    Reload,
    Probe(Seq<char>),
    WriteAs(PathView),
    Open(Seq<char>),
    OpenRecent(RecentView),
    Rename(Seq<char>),
    Trash,
    DiscardRecovery,
    OpenUrl(Seq<char>),
    SaveSettings {
        path: Seq<char>,
        keybindings: Seq<char>,
        line_numbers: Seq<char>,
        theme: Seq<char>,
        variant: Seq<char>,
    },
    WriteRecovery,
    CheckDiskForAutoSave,
    AutoSave,
}

impl View for Effect {
    type V = EffectView;

    open spec fn view(&self) -> EffectView {
        match self {
            Effect::Nothing => EffectView::Nothing,
            Effect::Copy(text) => EffectView::Copy(text@),
            Effect::Paste => EffectView::Paste,
            Effect::CheckDisk => EffectView::CheckDisk,
            Effect::Write => EffectView::Write,
            Effect::Reload => EffectView::Reload,
            Effect::Probe(path) => EffectView::Probe(path@),
            Effect::WriteAs(path) => EffectView::WriteAs(path@),
            Effect::Open(path) => EffectView::Open(path@),
            Effect::OpenRecent(file) => EffectView::OpenRecent(file@),
            Effect::Rename(path) => EffectView::Rename(path@),
            Effect::Trash => EffectView::Trash,
            Effect::DiscardRecovery => EffectView::DiscardRecovery,
            Effect::OpenUrl(url) => EffectView::OpenUrl(url@),
            Effect::SaveSettings {
                path,
                keybindings,
                line_numbers,
                theme,
                variant,
            } => EffectView::SaveSettings {
                path: path@,
                keybindings: keybindings@,
                line_numbers: line_numbers@,
                theme: theme@,
                variant: variant@,
            },
            Effect::WriteRecovery => EffectView::WriteRecovery,
            Effect::CheckDiskForAutoSave => EffectView::CheckDiskForAutoSave,
            Effect::AutoSave => EffectView::AutoSave,
        }
    }
}

/// The application.
pub struct App {
    pub editor: Editor,
    pub desk: Desk,
    pub theme: MarkdownTheme,
    pub status: Option<String>,
    /// Active bottom-line prompt (e.g. "save as"), if any.
    pub prompt: Option<Prompt>,
    pub palette: Option<Palette>,
    pub outline: Option<Outline>,
    pub diagnostics: Option<Diagnostics>,
    pub recent_picker: Option<RecentPicker>,
    pub recent_files: Vec<RecentFile>,
    pub clipboard: Clipboard,
    /// The last find query, reused by find-next (Vim `n`/`N`) and the prompt.
    pub last_search: String,
    /// The bytes that the current find session is confined to, if any.
    pub find_scope: Option<(usize, usize)>,
    pub recovery_content: Option<String>,
    /// Per-element colour overrides from config, re-applied on a runtime theme
    /// switch (the settings popup) so they survive a palette change.
    pub theme_overrides: Vec<(String, String)>,
    /// Explicit syntect theme from config (`theme.syntax`), or `None` to follow
    /// each palette's default code-block pairing.
    pub syntax_override: Option<String>,
    pub config_path: Option<String>,
    /// The user's home directory.
    pub home: Option<String>,
}

/// What an [`App`] holds.
pub struct AppView {
    pub editor: EditorView,
    pub desk: Desk,
    pub theme: MarkdownTheme,
    pub status: Option<Seq<char>>,
    pub prompt: Option<PromptState>,
    pub palette: Option<PickerView>,
    pub outline: Option<PickerView>,
    pub diagnostics: Option<DiagnosticsView>,
    pub recent_picker: Option<PickerView>,
    pub recent_files: Seq<RecentView>,
    pub register: Seq<char>,
    pub last_search: Seq<char>,
    pub find_scope: Option<(usize, usize)>,
    pub recovery_content: Option<Seq<char>>,
    pub theme_overrides: Seq<(Seq<char>, Seq<char>)>,
    pub syntax_override: Option<Seq<char>>,
    pub config_path: Option<Seq<char>>,
    pub home: Option<Seq<char>>,
}

/// The view of an optional prompt.
pub open spec fn prompt_state(p: Option<Prompt>) -> Option<PromptState> {
    match p {
        Some(p) => Some(p@),
        None => None,
    }
}

impl App {
    /// What the application holds.
    #[verifier::opaque]
    pub open spec fn seen(&self) -> AppView {
        AppView {
            editor: self.editor@,
            desk: self.desk,
            theme: self.theme,
            status: opt_view(self.status),
            prompt: prompt_state(self.prompt),
            palette: match self.palette {
                Some(p) => Some(p@),
                None => None,
            },
            outline: match self.outline {
                Some(p) => Some(p@),
                None => None,
            },
            diagnostics: match self.diagnostics {
                Some(d) => Some(d@),
                None => None,
            },
            recent_picker: match self.recent_picker {
                Some(p) => Some(p@),
                None => None,
            },
            recent_files: recent_views(self.recent_files@),
            register: self.clipboard.register(),
            last_search: self.last_search@,
            find_scope: self.find_scope,
            recovery_content: opt_view(self.recovery_content),
            theme_overrides: pair_views(self.theme_overrides@),
            syntax_override: opt_view(self.syntax_override),
            config_path: opt_view(self.config_path),
            home: opt_view(self.home),
        }
    }

    /// The document is in order, and so is what is being typed.
    #[verifier::opaque]
    pub open spec fn wf(&self) -> bool {
        &&& self.editor.wf()
        &&& match self.prompt {
            Some(p) => p@.ok(),
            None => true,
        }
    }
}

impl View for App {
    type V = AppView;

    open spec fn view(&self) -> AppView {
        self.seen()
    }
}

impl AppView {
    /// The application with another document state.
    pub open spec fn with_editor(self, editor: EditorView) -> AppView {
        AppView { editor, ..self }
    }

    /// The application with other plain state.
    pub open spec fn with_desk(self, desk: Desk) -> AppView {
        AppView { desk, ..self }
    }

    /// The application with something to say.
    pub open spec fn say(self, text: Seq<char>) -> AppView {
        AppView { status: Some(text), ..self }
    }

    /// The application with something to say, if there is anything.
    pub open spec fn say_if(self, text: Option<Seq<char>>) -> AppView {
        match text {
            Some(t) => self.say(t),
            None => self,
        }
    }

    /// The application with a question.
    pub open spec fn ask(self, prompt: PromptState) -> AppView {
        AppView { prompt: Some(prompt), ..self }
    }

    /// The application without a question.
    pub open spec fn unasked(self) -> AppView {
        AppView { prompt: None, ..self }
    }

    /// The rows that paging moves by.
    pub open spec fn page(self) -> int {
        if self.desk.viewport_height < 2 {
            1
        } else {
            self.desk.viewport_height - 1
        }
    }
}

/// The name of the preset that a configuration selects.
pub open spec fn chosen_preset(keybindings: Seq<char>) -> Preset {
    let v = plain_setting(keybindings);
    if v == "vim"@ {
        Preset::Vim
    } else if v == "nano"@ {
        Preset::Nano
    } else if v == "emacs"@ {
        Preset::Emacs
    } else {
        Preset::Standard
    }
}

/// The line numbers that a configuration selects.
pub open spec fn chosen_numbers(line_numbers: Seq<char>) -> LineNumbers {
    let v = plain_setting(line_numbers);
    if v == "absolute"@ || v == "on"@ || v == "true"@ {
        LineNumbers::Absolute
    } else if v == "relative"@ {
        LineNumbers::Relative
    } else {
        LineNumbers::Off
    }
}

/// The plain state at the start.
pub open spec fn fresh_desk(truecolor: bool) -> Desk {
    Desk {
        scroll_y: 0,
        focus_scroll_y: 0,
        raw_scroll_y: 0,
        read_scroll_y: 0,
        read_cursor: 0,
        should_quit: false,
        quit_after_save: false,
        mode: Mode::Insert,
        cursor_shape: CursorShape::Block,
        table_mode: false,
        raw_view: false,
        preset: Preset::Standard,
        line_numbers: LineNumbers::Off,
        pending: None,
        follow_cursor: true,
        mouse_press_byte: None,
        scrolloff: 3,
        left_margin: 1,
        viewport_height: 0,
        left_offset: 0,
        preview_rows: 0,
        auto_save: false,
        show_status_stats: false,
        recovery_written_version: 0,
        find_origin: 0,
        find_restore: None,
        search_options: SearchOptions::plain(),
        menu: None,
        truecolor,
    }
}

/// The theme that a configuration selects, its overrides applied.
pub open spec fn configured_theme(c: ConfigView, detected: ThemeVariant, truecolor: bool) -> MarkdownTheme {
    let t = selected(c.theme.name, c.theme.variant, detected, truecolor);
    with_overrides(
        MarkdownTheme {
            heading_glyphs: c.editor.heading_glyphs,
            hard_breaks: plain_setting(c.editor.soft_break) == "break"@,
            ..t
        },
        c.theme.markdown,
        truecolor,
    )
}

/// The theme that a configuration selects, its overrides applied.
pub fn chosen_theme(config: &Config, detected: ThemeVariant, truecolor: bool) -> (t: MarkdownTheme)
    ensures
        t == configured_theme(config@, detected, truecolor),
{
    let mut theme = MarkdownTheme::select(
        config.theme.name.as_str(),
        config.theme.variant.as_str(),
        detected,
        truecolor,
    );
    theme.heading_glyphs = config.editor.heading_glyphs;
    let soft = to_ascii_lower(trim(config.editor.soft_break.as_str()).as_str());
    theme.hard_breaks = same(soft.as_str(), "break");
    theme.apply_overrides(&config.theme.markdown, truecolor);
    theme
}

/// The plain state at the start, as configured.
pub open spec fn configured_desk(c: ConfigView, truecolor: bool) -> Desk {
    desk_with(fresh_desk(truecolor), c)
}

/// The plain state with the settings of a configuration.
pub open spec fn desk_with(desk: Desk, c: ConfigView) -> Desk {
    let preset = chosen_preset(c.editor.keybindings);
    Desk {
        preset,
        mode: preset.resting(),
        line_numbers: chosen_numbers(c.editor.line_numbers),
        scrolloff: c.editor.scrolloff,
        left_margin: c.editor.left_margin,
        auto_save: c.editor.auto_save,
        show_status_stats: c.editor.status_stats,
        ..desk
    }
}

fn preset_named(keybindings: &str) -> (p: Preset)
    ensures
        p == chosen_preset(keybindings@),
{
    let v = to_ascii_lower(trim(keybindings).as_str());
    if same(v.as_str(), "vim") {
        Preset::Vim
    } else if same(v.as_str(), "nano") {
        Preset::Nano
    } else if same(v.as_str(), "emacs") {
        Preset::Emacs
    } else {
        Preset::Standard
    }
}

fn numbers_named(line_numbers: &str) -> (n: LineNumbers)
    ensures
        n == chosen_numbers(line_numbers@),
{
    let v = to_ascii_lower(trim(line_numbers).as_str());
    if same(v.as_str(), "absolute") || same(v.as_str(), "on") || same(v.as_str(), "true") {
        LineNumbers::Absolute
    } else if same(v.as_str(), "relative") {
        LineNumbers::Relative
    } else {
        LineNumbers::Off
    }
}

/// A copy of optional text.
pub fn copy_text(s: &Option<String>) -> (t: Option<String>)
    ensures
        opt_view(t) == opt_view(*s),
{
    match s {
        Some(s) => Some(s.clone()),
        None => None,
    }
}

/// A copy of pairs of texts.
pub fn copy_pairs(pairs: &Vec<(String, String)>) -> (out: Vec<(String, String)>)
    ensures
        pair_views(out@) == pair_views(pairs@),
{
    let mut out: Vec<(String, String)> = Vec::new();
    let mut i: usize = 0;
    while i < pairs.len()
        invariant
            i <= pairs@.len(),
            out@.len() == i,
            forall|k: int|
                0 <= k < i ==> (#[trigger] out@[k]).0@ == pairs@[k].0@ && out@[k].1@
                    == pairs@[k].1@,
        decreases pairs@.len() - i,
    {
        out.push((pairs[i].0.clone(), pairs[i].1.clone()));
        i += 1;
    }
    assert(pair_views(out@) =~= pair_views(pairs@));
    out
}

/// The application at the start, on a document.
pub open spec fn fresh_app(doc: BufferView, theme: MarkdownTheme, truecolor: bool) -> AppView {
    AppView {
        editor: EditorView {
            doc,
            cursor: crate::cursor::Cursor { byte: 0, goal_col: 0 },
            anchor: None,
            history: crate::history::HistoryView::fresh(),
            wrap_width: 1,
            tab_width: 4,
            blocks: no_blocks(),
            version: 0,
            last_edit: None,
            retry_at: None,
            now: 0,
            searched: None,
            complaint: None,
            scans: 0,
        },
        desk: fresh_desk(truecolor),
        theme,
        status: None,
        prompt: None,
        palette: None,
        outline: None,
        diagnostics: None,
        recent_picker: None,
        recent_files: Seq::empty(),
        register: Seq::empty(),
        last_search: Seq::empty(),
        find_scope: None,
        recovery_content: None,
        theme_overrides: Seq::empty(),
        syntax_override: None,
        config_path: None,
        home: None,
    }
}

/// The application at the start, on a document, as configured.
pub open spec fn configured_app(
    doc: BufferView,
    c: ConfigView,
    detected: ThemeVariant,
    truecolor: bool,
) -> AppView {
    let a = fresh_app(doc, configured_theme(c, detected, truecolor), truecolor);
    AppView {
        editor: EditorView {
            tab_width: if c.editor.tab_width == 0 {
                1
            } else {
                c.editor.tab_width
            },
            ..a.editor
        },
        desk: configured_desk(c, truecolor),
        theme_overrides: c.theme.markdown,
        syntax_override: c.theme.syntax,
        config_path: c.source_path,
        ..a
    }
}

impl App {
    /// An application on a buffer.
    pub fn new(buffer: TextBuffer, theme: MarkdownTheme, truecolor: bool) -> (app: Self)
        requires
            2 * buffer@.bytes().len() + 2 <= usize::MAX,
        ensures
            app.wf(),
            app@ == fresh_app(buffer@, theme, truecolor),
    {
        proof {
            reveal(App::seen);
            reveal(App::wf);
        }
        let app = App {
            editor: Editor::new(buffer, 4),
            desk: Desk {
                scroll_y: 0,
                focus_scroll_y: 0,
                raw_scroll_y: 0,
                read_scroll_y: 0,
                read_cursor: 0,
                should_quit: false,
                quit_after_save: false,
                mode: Mode::Insert,
                cursor_shape: CursorShape::Block,
                table_mode: false,
                raw_view: false,
                preset: Preset::Standard,
                line_numbers: LineNumbers::Off,
                pending: None,
                follow_cursor: true,
                mouse_press_byte: None,
                scrolloff: 3,
                left_margin: 1,
                viewport_height: 0,
                left_offset: 0,
                preview_rows: 0,
                auto_save: false,
                show_status_stats: false,
                recovery_written_version: 0,
                find_origin: 0,
                find_restore: None,
                search_options: SearchOptions::default(),
                menu: None,
                truecolor,
            },
            theme,
            status: None,
            prompt: None,
            palette: None,
            outline: None,
            diagnostics: None,
            recent_picker: None,
            recent_files: Vec::new(),
            clipboard: Clipboard::new(),
            last_search: String::new(),
            find_scope: None,
            recovery_content: None,
            theme_overrides: Vec::new(),
            syntax_override: None,
            config_path: None,
            home: None,
        };
        assert(app@.recent_files =~= Seq::<RecentView>::empty());
        assert(app@.theme_overrides =~= Seq::<(Seq<char>, Seq<char>)>::empty());
        app
    }

    /// Take over the plain settings of a configuration.
    #[verifier::spinoff_prover]
    fn configure_desk(&mut self, config: &Config)
        requires
            old(self).wf(),
        ensures
            final(self).wf(),
            final(self)@ == old(self)@.with_desk(desk_with(old(self)@.desk, config@)),
    {
        proof {
            reveal(App::seen);
            reveal(App::wf);
        }
        let preset = preset_named(config.editor.keybindings.as_str());
        self.desk.preset = preset;
        self.desk.mode = preset.resting_mode();
        self.desk.line_numbers = numbers_named(config.editor.line_numbers.as_str());
        self.desk.scrolloff = config.editor.scrolloff;
        self.desk.left_margin = config.editor.left_margin;
        self.desk.auto_save = config.editor.auto_save;
        self.desk.show_status_stats = config.editor.status_stats;
    }

    /// Build an app with user configuration applied (preset, tab width,
    /// scrolloff, syntax theme, and markdown colour overrides).
    #[verifier::spinoff_prover]
    pub fn with_config(
        buffer: TextBuffer,
        config: &Config,
        detected: ThemeVariant,
        truecolor: bool,
    ) -> (app: Self)
        requires
            2 * buffer@.bytes().len() + 2 <= usize::MAX,
        ensures
            app.wf(),
            app@ == configured_app(buffer@, config@, detected, truecolor),
    {
        proof {
            reveal(App::seen);
            reveal(App::wf);
        }
        let theme = chosen_theme(config, detected, truecolor);
        let mut app = App::new(buffer, theme, truecolor);
        app.configure_desk(config);
        app.editor.set_tab_width(
            if config.editor.tab_width == 0 {
                1
            } else {
                config.editor.tab_width
            },
        );
        // Remembered so the settings popup can re-apply them across a runtime
        // palette switch.
        app.theme_overrides = copy_pairs(&config.theme.markdown);
        app.syntax_override = copy_text(&config.theme.syntax);
        app.config_path = copy_text(&config.source_path);
        app
    }

    // --- accessors used by the UI layer ---

    pub fn preset_label(&self) -> (label: &'static str)
        ensures
            label@ == self@.desk.preset.label_text(),
    {
        proof {
            reveal(App::seen);
            reveal(App::wf);
        }
        self.desk.preset.label()
    }

    /// The active keybinding preset (for the settings popup's guide filter).
    pub fn preset(&self) -> (p: Preset)
        ensures
            p == self@.desk.preset,
    {
        proof {
            reveal(App::seen);
            reveal(App::wf);
        }
        self.desk.preset
    }

    /// Whether the settings popup is open.
    pub fn menu_open(&self) -> (yes: bool)
        ensures
            yes == (self@.desk.menu is Some),
    {
        proof {
            reveal(App::seen);
            reveal(App::wf);
        }
        self.desk.menu.is_some()
    }

    /// The focused settings row (0 = keybindings, 1 = theme, 2 = appearance).
    pub fn menu_focus(&self) -> (row: usize)
        ensures
            row == match self@.desk.menu {
                Some(m) => m.focus,
                None => 0,
            },
    {
        proof {
            reveal(App::seen);
            reveal(App::wf);
        }
        match self.desk.menu {
            Some(m) => m.focus,
            None => 0,
        }
    }

    /// Scroll offset into the popup's keybinding guide.
    pub fn menu_guide_scroll(&self) -> (rows: usize)
        ensures
            rows == match self@.desk.menu {
                Some(m) => m.guide_scroll,
                None => 0,
            },
    {
        proof {
            reveal(App::seen);
            reveal(App::wf);
        }
        match self.desk.menu {
            Some(m) => m.guide_scroll,
            None => 0,
        }
    }

    pub fn line_numbers(&self) -> (n: LineNumbers)
        ensures
            n == self@.desk.line_numbers,
    {
        proof {
            reveal(App::seen);
            reveal(App::wf);
        }
        self.desk.line_numbers
    }

    pub fn left_margin(&self) -> (columns: usize)
        ensures
            columns == self@.desk.left_margin,
    {
        proof {
            reveal(App::seen);
            reveal(App::wf);
        }
        self.desk.left_margin
    }

    pub fn theme(&self) -> (theme: &MarkdownTheme)
        ensures
            *theme == self@.theme,
    {
        proof {
            reveal(App::seen);
            reveal(App::wf);
        }
        &self.theme
    }

    pub fn table_mode(&self) -> (yes: bool)
        ensures
            yes == self@.desk.table_mode,
    {
        proof {
            reveal(App::seen);
            reveal(App::wf);
        }
        self.desk.table_mode
    }

    pub fn raw_view(&self) -> (yes: bool)
        ensures
            yes == self@.desk.raw_view,
    {
        proof {
            reveal(App::seen);
            reveal(App::wf);
        }
        self.desk.raw_view
    }

    pub fn cursor_shape(&self) -> (shape: CursorShape)
        ensures
            shape == self@.desk.cursor_shape,
    {
        proof {
            reveal(App::seen);
            reveal(App::wf);
        }
        self.desk.cursor_shape
    }

    /// Whether drawing should scroll to keep the cursor visible.
    pub fn follows_cursor(&self) -> (yes: bool)
        ensures
            yes == self@.desk.follow_cursor,
    {
        proof {
            reveal(App::seen);
            reveal(App::wf);
        }
        self.desk.follow_cursor
    }

    /// The code theme to highlight with: the configured one, or the palette's own.
    pub fn syntax_theme(&self) -> (name: String)
        ensures
            name@ == match self@.syntax_override {
                Some(s) => s,
                None => self@.theme.syntax_theme_text(),
            },
    {
        proof {
            reveal(App::seen);
            reveal(App::wf);
        }
        match &self.syntax_override {
            Some(s) => s.clone(),
            None => self.theme.default_syntax_theme().to_owned(),
        }
    }

    /// Say something in the status line.
    pub fn set_status(&mut self, text: &str)
        requires
            old(self).wf(),
        ensures
            final(self).wf(),
            final(self)@ == old(self)@.say(text@),
    {
        proof {
            reveal(App::seen);
            reveal(App::wf);
        }
        self.status = Some(text.to_owned());
    }

    /// The rows that paging moves by.
    pub fn page_rows(&self) -> (rows: usize)
        ensures
            rows == self@.page(),
    {
        proof {
            reveal(App::seen);
            reveal(App::wf);
        }
        if self.desk.viewport_height < 2 {
            1
        } else {
            self.desk.viewport_height - 1
        }
    }

    /// The selection as an ordered byte range, or `None` when empty.
    pub fn selection_range(&self) -> (range: Option<(usize, usize)>)
        ensures
            range == self@.editor.selection(),
    {
        proof {
            reveal(App::seen);
            reveal(App::wf);
        }
        self.editor.selection_range()
    }
}

} // verus!
