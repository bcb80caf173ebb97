//! What comes of opening, saving and losing files.

use vstd::prelude::*;
use vstd::utf8::*;

use crate::app::files::{fits, PathKind};
use crate::app::{AppView, EffectView, PromptState};
use crate::buffer::{BufferView, DiskState, PathView};
use crate::bytes::boundary;
use crate::editor::lemma_floor_boundary;
use crate::line_index::least;
use crate::session::RecentView;

verus! {

/// A document whose file is as it was read is written; one whose file changed is asked about
/// first; and where the file cannot be looked at, nothing is written.
#[verifier::spinoff_prover]
pub proof fn lemma_unchanged_files_are_written(v: AppView, now: Result<DiskState, Seq<char>>)
    ensures
        ({
            let (w, effect) = v.disk_checked(now);
            &&& w.editor == v.editor
            &&& now == Ok::<DiskState, Seq<char>>(v.editor.doc.disk) ==> w == v && effect
                == EffectView::Write
            &&& now is Ok && now->Ok_0 != v.editor.doc.disk ==> w.prompt == Some(
                PromptState::ExternalChange { error: None },
            ) && effect == EffectView::Nothing && !w.desk.quit_after_save
            &&& now is Err ==> effect == EffectView::Nothing && w.prompt == v.prompt
                && !w.desk.quit_after_save && w.status == Some("Error: "@ + now->Err_0)
        }),
{
    reveal(AppView::disk_checked);
}

/// A document that was written has no unsaved changes, and its text and its cursor are what
/// they were; the application quits then, where it was to quit after saving, and only there.
#[verifier::spinoff_prover]
pub proof fn lemma_written_documents_are_clean(v: AppView, state: DiskState)
    ensures
        ({
            let w = v.written(Ok(state));
            &&& w.editor.doc == (BufferView { disk: state, modified: false, ..v.editor.doc })
            &&& w.editor.cursor == v.editor.cursor
            &&& w.editor.history.undo == v.editor.history.undo
            &&& w.status == Some("Saved"@)
            &&& w.desk.should_quit == (v.desk.should_quit || v.desk.quit_after_save)
        }),
{
    reveal(AppView::written);
    reveal(AppView::saved_as);
}

/// Where a document is to be saved, a file that is there is asked about first, a directory
/// is refused, and else it is written.
#[verifier::spinoff_prover]
pub proof fn lemma_files_are_asked_about(v: AppView, path: PathView, kind: PathKind)
    ensures
        ({
            let (w, effect) = v.probed(path, kind);
            &&& w.editor == v.editor
            &&& kind == PathKind::Missing ==> w == v && effect == EffectView::WriteAs(path)
            &&& kind != PathKind::Missing ==> effect == EffectView::Nothing
            &&& kind == PathKind::File ==> w.prompt == Some(
                PromptState::Overwrite { path, input: v.typed_name() },
            )
            &&& kind == PathKind::Directory ==> (w.prompt matches Some(
                PromptState::SaveAs { input, cursor, error },
            ) && input == v.typed_name() && error is Some)
        }),
{
    reveal(AppView::probed);
}

/// A document that was saved under a path has that path and no unsaved changes; one that
/// could not be keeps the one that it had, and its changes.
#[verifier::spinoff_prover]
pub proof fn lemma_documents_get_their_path(
    v: AppView,
    path: PathView,
    result: Result<DiskState, Seq<char>>,
)
    ensures
        ({
            let w = v.written_at(path, result);
            &&& result is Ok ==> w.editor.doc == (BufferView {
                path: Some(path),
                name: None,
                disk: result->Ok_0,
                modified: false,
                ..v.editor.doc
            }) && w.prompt is None
            &&& result is Err ==> w.editor == v.editor && w.prompt is Some
        }),
{
    reveal(AppView::written_at);
    reveal(AppView::saved_as);
}

/// Reading a file again puts what was read in place of the document, with nothing to undo;
/// where it could not be read the document stays.
#[verifier::spinoff_prover]
pub proof fn lemma_files_are_read_again(v: AppView, text: Seq<char>, state: DiskState, e: Seq<char>)
    requires
        fits(text),
    ensures
        ({
            let w = v.reloaded(Ok((text, state)));
            &&& w.editor.doc.text == text
            &&& w.editor.doc.disk == state
            &&& !w.editor.doc.modified
            &&& w.editor.doc.path == v.editor.doc.path
            &&& w.editor.history.undo.len() == 0
        }),
        v.reloaded(Err(e)).editor == v.editor,
{
    reveal(AppView::reloaded);
    reveal(AppView::document_set);
}

/// A file that was opened is what is edited, from its beginning and with nothing to undo; one
/// that could not be read leaves the document as it was.
#[verifier::spinoff_prover]
pub proof fn lemma_files_are_opened(v: AppView, doc: BufferView, e: Seq<char>)
    requires
        fits(doc.text),
    ensures
        ({
            let w = v.opened(Ok(doc));
            &&& w.editor.doc == doc
            &&& w.editor.cursor.byte == 0
            &&& w.desk.scroll_y == 0
            &&& w.editor.history.undo.len() == 0
            &&& w.prompt is None
        }),
        v.opened(Err(e)).editor == v.editor,
        v.opened(Err(e)).prompt is Some,
{
    reveal(AppView::opened);
    reveal(AppView::document_opened);
    reveal(AppView::document_set);
    reveal(AppView::file_view_reset);
    reveal(AppView::file_remembered);
    reveal(AppView::edit_scroll_saved);
}

/// A recent file is edited from where it was left.
#[verifier::spinoff_prover]
pub proof fn lemma_recent_files_are_as_left(v: AppView, entry: RecentView, doc: BufferView)
    requires
        fits(doc.text),
        boundary(encode_utf8(doc.text), entry.cursor as int),
    ensures
        ({
            let w = v.recent_read(entry, Ok(doc));
            &&& w.editor.doc == doc
            &&& w.editor.cursor.byte == entry.cursor
            &&& w.desk.scroll_y == if v.desk.raw_view {
                entry.raw_scroll
            } else {
                entry.focus_scroll
            }
            &&& w.desk.read_scroll_y == entry.read_scroll
            &&& w.recent_picker is None
        }),
{
    reveal(AppView::recent_read);
    reveal(AppView::left_place);
    reveal(AppView::document_set);
    reveal(AppView::file_remembered);
    reveal(AppView::edit_scroll_saved);
    let b = encode_utf8(doc.text);
    encode_utf8_valid_utf8(doc.text);
    assert(least(entry.cursor as int, b.len() as int) == entry.cursor);
    lemma_floor_boundary(b, entry.cursor as int);
}

/// A file that was renamed keeps its text, and one that could not be its name.
#[verifier::spinoff_prover]
pub proof fn lemma_files_are_renamed(v: AppView, path: PathView, state: DiskState, e: Seq<char>)
    ensures
        v.renamed(path, Ok(state)).editor.doc == (BufferView {
            path: Some(path),
            disk: state,
            ..v.editor.doc
        }),
        v.renamed(path, Ok(state)).prompt is None,
        v.renamed(path, Err(e)).editor == v.editor,
{
    reveal(AppView::renamed);
}

/// Where the file was moved to the trash, an empty document without a name is edited; where
/// it could not be, the document stays.
#[verifier::spinoff_prover]
pub proof fn lemma_trashed_files_are_left(v: AppView, e: Seq<char>)
    ensures
        ({
            let w = v.trashed(None);
            &&& w.editor.doc.text.len() == 0
            &&& w.editor.doc.path is None
            &&& !w.editor.doc.modified
        }),
        v.trashed(Some(e)).editor == v.editor,
        v.trashed(Some(e)).recent_files == v.recent_files,
{
    reveal(AppView::trashed);
    reveal(AppView::document_opened);
    reveal(AppView::document_set);
    reveal(AppView::file_view_reset);
}

/// Unsaved work is kept two seconds after the last edit, and not before; once it is kept, the
/// document is saved by itself where that is asked for and it has a file. Nothing is done
/// where there are no changes, or while something is asked.
#[verifier::spinoff_prover]
pub proof fn lemma_work_is_kept_when_idle(v: AppView, now: u64, at: u64)
    requires
        v.editor.last_edit == Some(at),
        v.editor.retry_at is None,
        at <= now,
    ensures
        ({
            let (w, effect) = v.ticked(now);
            let kept = v.desk.recovery_written_version == v.editor.version;
            &&& w.editor.doc == v.editor.doc
            &&& now - at < 2000 ==> effect == EffectView::Nothing
            &&& !v.editor.doc.modified || v.prompt is Some ==> effect == EffectView::Nothing
            &&& now - at >= 2000 && v.editor.doc.modified && v.prompt is None && !kept ==> effect
                == EffectView::WriteRecovery
            &&& now - at >= 2000 && v.editor.doc.modified && v.prompt is None && kept
                && v.desk.auto_save && v.editor.doc.path is Some ==> effect
                == EffectView::CheckDiskForAutoSave
            &&& kept && (!v.desk.auto_save || v.editor.doc.path is None) ==> effect
                == EffectView::Nothing
        }),
{
    reveal(AppView::ticked);
}

/// What failed is tried again ten seconds later, and not before.
#[verifier::spinoff_prover]
pub proof fn lemma_failures_are_tried_again(v: AppView, e: Seq<char>, now: u64)
    requires
        v.editor.now + 10000 <= u64::MAX,
        v.editor.now <= now < v.editor.now + 10000,
    ensures
        v.recovery_kept(Some(e)).0.ticked(now).1 == EffectView::Nothing,
        v.auto_checked(Err(e)).0.ticked(now).1 == EffectView::Nothing,
        v.auto_saved(Err(e)).ticked(now).1 == EffectView::Nothing,
        v.auto_saved(Err(e)).editor.doc == v.editor.doc,
        v.auto_saved(Err(e)).editor.retry_at == Some((v.editor.now + 10000) as u64),
{
    reveal(AppView::ticked);
    reveal(AppView::recovery_kept);
    reveal(AppView::auto_checked);
    reveal(AppView::auto_saved);
}

/// Work that was found is offered, restored on `r` as unsaved changes, thrown away on `d`,
/// and kept on Escape.
#[verifier::spinoff_prover]
pub proof fn lemma_found_work_is_offered(
    v: AppView,
    content: Seq<char>,
    key: crate::line_input::Key,
)
    requires
        fits(content),
    ensures
        ({
            let w = v.recovery_offered(Ok(Some(content)));
            let (r, effect) = w.prompt_key(key);
            &&& w.prompt is Some && w.editor == v.editor
            &&& key.code == crate::line_input::KeyCode::Char('r') ==> r.editor.doc.text == content
                && r.editor.doc.modified && r.editor.doc.path == v.editor.doc.path && r.prompt is None
            &&& key.code == crate::line_input::KeyCode::Char('d') ==> effect
                == EffectView::DiscardRecovery && r.editor == v.editor
            &&& key.code == crate::line_input::KeyCode::Esc ==> effect == EffectView::Nothing
                && r.editor == v.editor && r.prompt is None
        }),
{
    reveal(AppView::recovery_offered);
    reveal(AppView::prompt_key);
    reveal(AppView::recovery_answered);
    reveal(AppView::document_set);
}

} // verus!
