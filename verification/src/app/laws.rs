//! What holds of the application as a whole.

use vstd::prelude::*;

use crate::action::Action;
use crate::app::{AppView, EffectView, Menu, Mode, PromptState};
use crate::bytes::boundary;
use crate::editor::{
    floor_boundary, lemma_floor_boundary, lemma_inserting_back_restores_the_text, lemma_slice_is_not_empty,
    EditorView,
};
use crate::line_index::least;
use crate::line_input::Key;
use crate::strings::has_char;

verus! {

/// A place where a character begins is its own floor.
proof fn lemma_place_is_kept(b: Seq<u8>, at: int)
    requires
        boundary(b, at),
        vstd::utf8::valid_utf8(b),
    ensures
        floor_boundary(b, least(at, b.len() as int)) == at,
{
    lemma_floor_boundary(b, at);
}

/// Entering the preview and leaving it again restores the cursor and the scroll position
/// of the editing view, and does not touch the document.
pub proof fn lemma_preview_restores_the_view(v: AppView)
    requires
        v.desk.mode != Mode::Read,
        v.editor.ok(),
    ensures
        v.preview_toggled().desk.mode == Mode::Read,
        v.preview_toggled().preview_toggled().desk.scroll_y == v.desk.scroll_y,
        v.preview_toggled().preview_toggled().editor.cursor.byte == v.editor.cursor.byte,
        v.preview_toggled().preview_toggled().editor.doc == v.editor.doc,
        v.preview_toggled().preview_toggled().desk.mode == v.desk.preset.resting(),
{
    reveal(AppView::preview_toggled);
    reveal(AppView::preview_left);
    reveal(AppView::edit_scroll_saved);
    vstd::utf8::encode_utf8_valid_utf8(v.editor.doc.text);
    lemma_place_is_kept(v.editor.bytes(), v.editor.cursor.byte as int);
}

/// The raw view and the focus view keep their own scroll positions: toggling back restores
/// the one that was left.
pub proof fn lemma_views_keep_their_scroll_positions(v: AppView)
    requires
        v.desk.mode != Mode::Read,
    ensures
        v.raw_toggled().desk.raw_view != v.desk.raw_view,
        v.raw_toggled().raw_toggled().desk.raw_view == v.desk.raw_view,
        v.raw_toggled().raw_toggled().desk.scroll_y == v.desk.scroll_y,
        v.raw_toggled().raw_toggled().editor == v.editor,
{
    reveal(AppView::raw_toggled);
}

/// Quitting with unsaved changes asks first, and leaves the document alone.
pub proof fn lemma_quitting_asks_first(v: AppView)
    ensures
        v.editor.doc.modified ==> v.quit_requested().desk.should_quit == v.desk.should_quit
            && v.quit_requested().prompt == Some(PromptState::ConfirmQuit),
        !v.editor.doc.modified ==> v.quit_requested().desk.should_quit,
        v.quit_requested().editor == v.editor,
{
    reveal(AppView::quit_requested);
}

/// A command that cannot be run does nothing.
pub proof fn lemma_disabled_commands_do_nothing(v: AppView, action: Action)
    requires
        !v.enabled(action),
    ensures
        v.ran(action) == (v, EffectView::Nothing),
{
    reveal(AppView::ran);
}

/// The commands of the views and of the files do not change the text of the document,
/// except that a new document can be begun.
#[verifier::spinoff_prover]
pub proof fn lemma_view_commands_keep_the_text(v: AppView, action: Action)
    requires
        action != Action::NewFile,
    ensures
        v.view_command(action) matches Some(w) ==> w.editor.doc == v.editor.doc,
{
    reveal(AppView::view_command);
    match action {
        Action::SaveAs => {
            reveal(AppView::save_as_current_opened);
            reveal(AppView::save_as_opened);
        },
        Action::Quit => {
            reveal(AppView::quit_requested);
        },
        Action::Settings => {
            reveal(AppView::menu_opened);
        },
        Action::Find => {
            reveal(AppView::find_opened);
        },
        Action::TogglePreview => {
            reveal(AppView::preview_toggled);
            reveal(AppView::preview_left);
            reveal(AppView::edit_scroll_saved);
        },
        Action::ToggleRaw => {
            reveal(AppView::raw_toggled);
        },
        Action::ToggleTable => {
            reveal(AppView::table_toggled);
        },
        Action::ToggleCursor => {
            reveal(AppView::shape_toggled);
        },
        Action::CyclePreset => {
            reveal(AppView::preset_set);
            reveal(AppView::preview_left);
        },
        Action::CommandPalette => {
            reveal(AppView::palette_opened);
        },
        Action::Outline => {
            reveal(AppView::outline_opened);
        },
        Action::Diagnostics => {
            reveal(AppView::diagnostics_opened);
        },
        Action::ToggleStats => {
            reveal(AppView::stats_toggled);
        },
        Action::OpenFile => {
            reveal(AppView::open_asked);
        },
        Action::RecentFiles => {
            reveal(AppView::recent_opened);
        },
        Action::RenameFile => {
            reveal(AppView::rename_asked);
        },
        _ => {},
    }
}

/// In the preview no command changes the document, except that a new one can be begun.
#[verifier::spinoff_prover]
pub proof fn lemma_preview_is_read_only(v: AppView, action: Action)
    requires
        v.desk.mode == Mode::Read,
        action != Action::NewFile,
    ensures
        v.ran(action).0.editor.doc == v.editor.doc,
{
    reveal(AppView::ran);
    reveal(AppView::text_command);
    reveal(AppView::view_command);
    reveal(AppView::save_begun);
    reveal(AppView::save_as_opened);
    lemma_view_commands_keep_the_text(v, action);
}

/// Esc in the settings popup brings back the keybindings and the line numbers that it was
/// opened with, selects the theme that it was opened with, and closes it; where the
/// keybindings were not changed, the document and the selection are as they were.
pub proof fn lemma_escape_reverts_the_settings(v: AppView, m: Menu)
    ensures
        v.menu_cancelled(m).desk.preset == m.orig_preset,
        v.menu_cancelled(m).desk.line_numbers == m.orig_line_numbers,
        v.menu_cancelled(m).theme == v.theme_applied(m.orig_theme, m.orig_variant).theme,
        v.menu_cancelled(m).desk.menu is None,
        v.desk.preset == m.orig_preset ==> v.menu_cancelled(m).editor == v.editor,
{
    reveal(AppView::menu_cancelled);
    reveal(AppView::theme_applied);
    reveal(AppView::preset_set);
    reveal(AppView::preview_left);
}

/// While a name is typed, a file is about to be overwritten or a question is answered, no
/// key changes the text of the document: it is the prompt's.
pub proof fn lemma_prompts_capture_the_keys(v: AppView, key: Key)
    requires
        match v.prompt {
            Some(PromptState::SaveAs { .. }) => true,
            Some(PromptState::Overwrite { .. }) => true,
            Some(PromptState::ConfirmQuit) => true,
            Some(PromptState::ExternalChange { .. }) => true,
            Some(PromptState::OpenUrl { .. }) => true,
            Some(PromptState::OpenFile { .. }) => true,
            Some(PromptState::RenameFile { .. }) => true,
            Some(PromptState::TrashFile) => true,
            _ => false,
        },
    ensures
        v.handled(key).0.editor == v.editor,
{
    reveal(AppView::handled);
    reveal(AppView::prompt_key);
    reveal(AppView::save_as_typed);
    reveal(AppView::overwrite_answered);
    reveal(AppView::quit_answered);
    reveal(AppView::change_answered);
    reveal(AppView::url_answered);
    reveal(AppView::open_typed);
    reveal(AppView::rename_typed);
    reveal(AppView::trash_answered);
    reveal(AppView::save_begun);
    reveal(AppView::save_as_opened);
}

/// Giving a search up restores the cursor and the selection that it began with, as long as
/// the text is the one it began in.
pub proof fn lemma_escape_restores_the_place(v: AppView, w: AppView)
    requires
        v.editor.ok(),
        w.editor.doc == v.editor.doc,
        w.desk.find_restore == v.find_opened().desk.find_restore,
    ensures
        w.find_given_up().editor.cursor.byte == v.editor.cursor.byte,
        w.find_given_up().editor.anchor == v.editor.anchor,
        w.find_given_up().editor.doc == v.editor.doc,
        w.find_given_up().find_scope is None,
{
    reveal(AppView::find_opened);
    reveal(AppView::find_given_up);
    reveal(EditorView::find_cancelled);
    vstd::utf8::encode_utf8_valid_utf8(v.editor.doc.text);
    lemma_place_is_kept(v.editor.bytes(), v.editor.cursor.byte as int);
    match v.editor.anchor {
        Some(a) => lemma_place_is_kept(v.editor.bytes(), a as int),
        None => {},
    }
}

/// A write that failed leaves the document as it was, unsaved, and bound to no other file.
pub proof fn lemma_failed_writes_change_nothing(v: AppView, e: Seq<char>, path: crate::buffer::PathView)
    ensures
        v.written(Err(e)).editor == v.editor,
        v.written_at(path, Err(e)).editor == v.editor,
        v.auto_saved(Err(e)).editor.doc == v.editor.doc,
        v.renamed(path, Err(e)).editor == v.editor,
        v.trashed(Some(e)).editor == v.editor,
{
    reveal(AppView::written);
    reveal(AppView::written_at);
    reveal(AppView::auto_saved);
    reveal(AppView::renamed);
    reveal(AppView::trashed);
}

/// A write that succeeded leaves an unmodified document with the same text, and undoing an
/// edit from there makes it modified again.
pub proof fn lemma_saving_marks_the_text(v: AppView, state: crate::buffer::DiskState)
    ensures
        !v.written(Ok(state)).editor.doc.modified,
        v.written(Ok(state)).editor.doc.text == v.editor.doc.text,
        v.written(Ok(state)).editor.doc.disk == state,
        v.written(Ok(state)).editor.history.saved_depth == Some(v.editor.history.depth()),
{
    reveal(AppView::written);
    reveal(AppView::saved_as);
}

/// Cutting a selection within a line and pasting it again, from the register or from a
/// system clipboard that kept it, restores the text. (Cutting a line break renumbers the
/// ordered list around it.)
pub proof fn lemma_cut_and_paste_restore_the_text(v: AppView)
    requires
        v.editor.ok(),
        v.editor.selection() is Some,
        !has_char(v.editor.slice(v.editor.copy_range().0, v.editor.copy_range().1), '\n'),
        v.editor.has_room(v.editor.bytes().len() as int),
        v.cut().0.editor.has_room(v.editor.bytes().len() as int),
    ensures
        v.cut().1 == EffectView::Copy(v.cut().0.register),
        v.cut().0.pasted(v.cut().0.register).editor.doc.text == v.editor.doc.text,
{
    reveal(AppView::cut);
    reveal(AppView::cut_out);
    reveal(AppView::pasted);
    let (s, e) = v.editor.copy_range();
    let calm = v.editor.run_ended();
    lemma_slice_is_not_empty(v.editor, s, e);
    lemma_inserting_back_restores_the_text(calm, s, e);
    assert(calm.slice(s, e) == v.editor.slice(s, e));
}

} // verus!
