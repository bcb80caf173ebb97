//! The editor's commands, as the palette offers them.

use vstd::prelude::*;

verus! {

/// A command.
#[derive(Clone, Copy, Debug, PartialEq, Eq, Structural)]
pub enum Action {
    Save,
    SaveAs,
    Quit,
    Settings,
    Find,
    TogglePreview,
    ToggleRaw,
    ToggleTable,
    ToggleCursor,
    CyclePreset,
    Undo,
    Redo,
    SelectAll,
    Copy,
    Cut,
    Paste,
    CommandPalette,
    Bold,
    Italic,
    Strikethrough,
    InlineCode,
    Link,
    CycleHeading,
    ToggleQuote,
    ToggleBullet,
    ToggleTask,
    Outline,
    FollowLink,
    ToggleStats,
    FormatTable,
    Diagnostics,
    NewFile,
    OpenFile,
    RecentFiles,
    RenameFile,
    TrashFile,
}

impl Action {
    /// The commands that the palette offers, in their order.
    pub open spec fn order() -> Seq<Action> {
        seq![
            Action::Save,
            Action::SaveAs,
            Action::Find,
            Action::Undo,
            Action::Redo,
            Action::SelectAll,
            Action::Copy,
            Action::Cut,
            Action::Paste,
            Action::Bold,
            Action::Italic,
            Action::Strikethrough,
            Action::InlineCode,
            Action::Link,
            Action::CycleHeading,
            Action::ToggleQuote,
            Action::ToggleBullet,
            Action::ToggleTask,
            Action::Outline,
            Action::FollowLink,
            Action::ToggleStats,
            Action::TogglePreview,
            Action::ToggleRaw,
            Action::ToggleTable,
            Action::Settings,
            Action::ToggleCursor,
            Action::CyclePreset,
            Action::Quit,
            Action::FormatTable,
            Action::Diagnostics,
            Action::NewFile,
            Action::OpenFile,
            Action::RecentFiles,
            Action::RenameFile,
            Action::TrashFile,
        ]
    }

    /// The commands that the palette offers, in their order.
    pub fn all() -> (actions: Vec<Action>)
        ensures
            actions@ == Action::order(),
    {
        let actions = vec![
            Action::Save,
            Action::SaveAs,
            Action::Find,
            Action::Undo,
            Action::Redo,
            Action::SelectAll,
            Action::Copy,
            Action::Cut,
            Action::Paste,
            Action::Bold,
            Action::Italic,
            Action::Strikethrough,
            Action::InlineCode,
            Action::Link,
            Action::CycleHeading,
            Action::ToggleQuote,
            Action::ToggleBullet,
            Action::ToggleTask,
            Action::Outline,
            Action::FollowLink,
            Action::ToggleStats,
            Action::TogglePreview,
            Action::ToggleRaw,
            Action::ToggleTable,
            Action::Settings,
            Action::ToggleCursor,
            Action::CyclePreset,
            Action::Quit,
            Action::FormatTable,
            Action::Diagnostics,
            Action::NewFile,
            Action::OpenFile,
            Action::RecentFiles,
            Action::RenameFile,
            Action::TrashFile,
        ];
        assert(actions@ =~= Action::order());
        actions
    }

    /// What the command is called.
    pub open spec fn label_text(self) -> Seq<char> {
        match self {
            Action::Save => "Save"@,
            Action::SaveAs => "Save as"@,
            Action::Quit => "Quit"@,
            Action::Settings => "Settings"@,
            Action::Find => "Find and replace"@,
            Action::TogglePreview => "Toggle preview"@,
            Action::ToggleRaw => "Toggle raw source"@,
            Action::ToggleTable => "Toggle table mode"@,
            Action::ToggleCursor => "Toggle cursor shape"@,
            Action::CyclePreset => "Cycle keybindings"@,
            Action::Undo => "Undo"@,
            Action::Redo => "Redo"@,
            Action::SelectAll => "Select all"@,
            Action::Copy => "Copy"@,
            Action::Cut => "Cut"@,
            Action::Paste => "Paste"@,
            Action::CommandPalette => "Command palette"@,
            Action::Bold => "Toggle bold"@,
            Action::Italic => "Toggle italic"@,
            Action::Strikethrough => "Toggle strikethrough"@,
            Action::InlineCode => "Toggle inline code"@,
            Action::Link => "Insert link"@,
            Action::CycleHeading => "Cycle heading level"@,
            Action::ToggleQuote => "Toggle block quote"@,
            Action::ToggleBullet => "Toggle bullet list"@,
            Action::ToggleTask => "Toggle task item"@,
            Action::Outline => "Document outline"@,
            Action::FollowLink => "Follow link or footnote"@,
            Action::ToggleStats => "Toggle document statistics"@,
            Action::FormatTable => "Format table"@,
            Action::Diagnostics => "Markdown diagnostics"@,
            Action::NewFile => "New file"@,
            Action::OpenFile => "Open file"@,
            Action::RecentFiles => "Recent files"@,
            Action::RenameFile => "Rename file"@,
            Action::TrashFile => "Move file to trash"@,
        }
    }

    /// What the command is called.
    pub fn label(self) -> (label: &'static str)
        ensures
            label@ == self.label_text(),
    {
        match self {
            Action::Save => "Save",
            Action::SaveAs => "Save as",
            Action::Quit => "Quit",
            Action::Settings => "Settings",
            Action::Find => "Find and replace",
            Action::TogglePreview => "Toggle preview",
            Action::ToggleRaw => "Toggle raw source",
            Action::ToggleTable => "Toggle table mode",
            Action::ToggleCursor => "Toggle cursor shape",
            Action::CyclePreset => "Cycle keybindings",
            Action::Undo => "Undo",
            Action::Redo => "Redo",
            Action::SelectAll => "Select all",
            Action::Copy => "Copy",
            Action::Cut => "Cut",
            Action::Paste => "Paste",
            Action::CommandPalette => "Command palette",
            Action::Bold => "Toggle bold",
            Action::Italic => "Toggle italic",
            Action::Strikethrough => "Toggle strikethrough",
            Action::InlineCode => "Toggle inline code",
            Action::Link => "Insert link",
            Action::CycleHeading => "Cycle heading level",
            Action::ToggleQuote => "Toggle block quote",
            Action::ToggleBullet => "Toggle bullet list",
            Action::ToggleTask => "Toggle task item",
            Action::Outline => "Document outline",
            Action::FollowLink => "Follow link or footnote",
            Action::ToggleStats => "Toggle document statistics",
            Action::FormatTable => "Format table",
            Action::Diagnostics => "Markdown diagnostics",
            Action::NewFile => "New file",
            Action::OpenFile => "Open file",
            Action::RecentFiles => "Recent files",
            Action::RenameFile => "Rename file",
            Action::TrashFile => "Move file to trash",
        }
    }

    /// No two commands are called the same.
    pub proof fn lemma_labels_differ(self, other: Action)
        requires
            self.label_text() == other.label_text(),
        ensures
            self == other,
    {
        reveal_strlit("Save");
        reveal_strlit("Save as");
        reveal_strlit("Quit");
        reveal_strlit("Settings");
        reveal_strlit("Find and replace");
        reveal_strlit("Toggle preview");
        reveal_strlit("Toggle raw source");
        reveal_strlit("Toggle table mode");
        reveal_strlit("Toggle cursor shape");
        reveal_strlit("Cycle keybindings");
        reveal_strlit("Undo");
        reveal_strlit("Redo");
        reveal_strlit("Select all");
        reveal_strlit("Copy");
        reveal_strlit("Cut");
        reveal_strlit("Paste");
        reveal_strlit("Command palette");
        reveal_strlit("Toggle bold");
        reveal_strlit("Toggle italic");
        reveal_strlit("Toggle strikethrough");
        reveal_strlit("Toggle inline code");
        reveal_strlit("Insert link");
        reveal_strlit("Cycle heading level");
        reveal_strlit("Toggle block quote");
        reveal_strlit("Toggle bullet list");
        reveal_strlit("Toggle task item");
        reveal_strlit("Document outline");
        reveal_strlit("Follow link or footnote");
        reveal_strlit("Toggle document statistics");
        reveal_strlit("Format table");
        reveal_strlit("Markdown diagnostics");
        reveal_strlit("New file");
        reveal_strlit("Open file");
        reveal_strlit("Recent files");
        reveal_strlit("Rename file");
        reveal_strlit("Move file to trash");
        let (a, b) = (self.label_text(), other.label_text());
        assert(a.len() == b.len() && a[0] == b[0] && a[10] == b[10]);
    }

    /// The keys that run the command in most presets.
    pub open spec fn shortcut_text(self) -> Seq<char> {
        match self {
            Action::Save => "Ctrl+S"@,
            Action::SaveAs => "Ctrl+Shift+S"@,
            Action::Quit => "Ctrl+Q"@,
            Action::Settings => "Ctrl+G"@,
            Action::Find => "Ctrl+F"@,
            Action::TogglePreview => "Ctrl+P"@,
            Action::ToggleRaw => "Ctrl+R"@,
            Action::ToggleTable => "Ctrl+T"@,
            Action::ToggleCursor => "Ctrl+B"@,
            Action::CyclePreset => "Ctrl+L"@,
            Action::Undo => "Ctrl+Z"@,
            Action::Redo => "Ctrl+Y"@,
            Action::SelectAll => "Ctrl+A"@,
            Action::Copy => "Ctrl+C"@,
            Action::Cut => "Ctrl+X"@,
            Action::Paste => "Ctrl+V"@,
            Action::CommandPalette => "Ctrl+Shift+P"@,
            Action::Outline => "Ctrl+Shift+O"@,
            _ => ""@,
        }
    }

    /// The keys that run the command in most presets.
    pub fn shortcut(self) -> (keys: &'static str)
        ensures
            keys@ == self.shortcut_text(),
    {
        match self {
            Action::Save => "Ctrl+S",
            Action::SaveAs => "Ctrl+Shift+S",
            Action::Quit => "Ctrl+Q",
            Action::Settings => "Ctrl+G",
            Action::Find => "Ctrl+F",
            Action::TogglePreview => "Ctrl+P",
            Action::ToggleRaw => "Ctrl+R",
            Action::ToggleTable => "Ctrl+T",
            Action::ToggleCursor => "Ctrl+B",
            Action::CyclePreset => "Ctrl+L",
            Action::Undo => "Ctrl+Z",
            Action::Redo => "Ctrl+Y",
            Action::SelectAll => "Ctrl+A",
            Action::Copy => "Ctrl+C",
            Action::Cut => "Ctrl+X",
            Action::Paste => "Ctrl+V",
            Action::CommandPalette => "Ctrl+Shift+P",
            Action::Outline => "Ctrl+Shift+O",
            _ => "",
        }
    }
}

} // verus!
