//! What comes back from the world outside: files that were read or written, settings and
//! recoveries.

use vstd::prelude::*;

use crate::app::commands::blank_document;
use crate::app::{App, AppView, Desk, Effect, EffectView, Prompt, PromptState};
use crate::buffer::{mostly_crlf, BufferView, DiskState, FilePath, PathView, TextBuffer};
use crate::editor::EditorView;
use crate::editor::floor_boundary;
use crate::history::HistoryView;
use crate::line_index::least;
use crate::session::{
    capped, forget, present, recent_views, still_there, without_path, RecentFile, RecentView,
};
use crate::strings::{byte_len, byte_length, joined, opt_view, same};

verus! {

/// What is at a path.
#[derive(Clone, Copy, Debug, PartialEq, Eq, Structural)]
pub enum PathKind {
    Directory,
    File,
    Missing,
}

/// A file that was read: its path, and its text with the state of the file. A file that
/// does not exist yet has neither.
pub struct ReadFile {
    pub path: FilePath,
    pub content: Option<(String, DiskState)>,
}

/// What a [`ReadFile`] says: the document that it becomes.
pub open spec fn read_document(file: ReadFile) -> BufferView {
    BufferView {
        text: match file.content {
            Some((text, _)) => text@,
            None => Seq::empty(),
        },
        path: Some(file.path@),
        name: None,
        modified: false,
        crlf: match file.content {
            Some((text, _)) => mostly_crlf(text@),
            None => false,
        },
        disk: match file.content {
            Some((_, state)) => state,
            None => DiskState::Missing,
        },
    }
}

/// The view of the outcome of something that can fail.
pub open spec fn outcome(r: Result<(), String>) -> Option<Seq<char>> {
    match r {
        Ok(_) => None,
        Err(e) => Some(e@),
    }
}

/// Whether a text can be edited: it must be possible to lay it out.
pub open spec fn fits(text: Seq<char>) -> bool {
    2 * byte_len(text) + 2 <= usize::MAX
}

/// Whether a text can be edited.
fn is_fitting(text: &str) -> (yes: bool)
    ensures
        yes == fits(text@),
{
    byte_length(text) <= (usize::MAX - 2) / 2
}

/// What is said of a file that cannot be edited.
pub const TOO_LARGE: &'static str = "document is too large";

impl AppView {
    /// The document is saved, and is now the one given.
    #[verifier::opaque]
    pub open spec fn saved_as(self, doc: BufferView) -> AppView {
        self.with_editor(
            EditorView {
                doc,
                history: HistoryView {
                    open: false,
                    saved_depth: Some(self.editor.history.depth()),
                    ..self.editor.history
                },
                retry_at: None,
                ..self.editor
            },
        )
    }

    /// The document after it was written to its file.
    pub open spec fn written_document(self, state: DiskState) -> BufferView {
        BufferView { disk: state, modified: false, ..self.editor.doc }
    }

    /// The state of the file is known, to save the document: it is written unless the file
    /// changed, in which case it is asked what to do.
    #[verifier::opaque]
    pub open spec fn disk_checked(self, now: Result<DiskState, Seq<char>>) -> (
        AppView,
        EffectView,
    ) {
        match now {
            Ok(state) => if state != self.editor.doc.disk {
                (
                    self.quitting_after_save(false).ask(
                        PromptState::ExternalChange { error: None },
                    ),
                    EffectView::Nothing,
                )
            } else {
                (self, EffectView::Write)
            },
            Err(e) => (
                self.quitting_after_save(false).say("Error: "@ + e),
                EffectView::Nothing,
            ),
        }
    }

    /// The document was written to its file, or could not be.
    #[verifier::opaque]
    pub open spec fn written(self, result: Result<DiskState, Seq<char>>) -> AppView {
        match result {
            Ok(state) => {
                let v = self.saved_as(self.written_document(state)).say("Saved"@);
                if self.desk.quit_after_save {
                    v.quitting_after_save(false).quitting()
                } else {
                    v
                }
            },
            Err(e) => self.quitting_after_save(false).say("Error: "@ + e),
        }
    }

    /// The file was read again, or could not be.
    #[verifier::opaque]
    pub open spec fn reloaded(self, result: Result<(Seq<char>, DiskState), Seq<char>>) -> AppView {
        match result {
            Ok((text, state)) => if fits(text) {
                self.document_set(
                    BufferView {
                        text,
                        crlf: mostly_crlf(text),
                        disk: state,
                        modified: false,
                        ..self.editor.doc
                    },
                    HistoryView::fresh(),
                ).say("Reloaded"@)
            } else {
                self.ask(
                    PromptState::ExternalChange { error: Some("Reload failed: "@ + TOO_LARGE@) },
                )
            },
            Err(e) => self.ask(
                PromptState::ExternalChange { error: Some("Reload failed: "@ + e) },
            ),
        }
    }

    /// What was typed as the name to save the document under.
    pub open spec fn typed_name(self) -> Seq<char> {
        match self.prompt {
            Some(PromptState::SaveAs { input, cursor, error }) => input,
            Some(PromptState::Overwrite { path, input }) => input,
            Some(PromptState::OpenFile { input, cursor, error }) => input,
            Some(PromptState::RenameFile { input, cursor, error }) => input,
            _ => Seq::empty(),
        }
    }

    /// The name is asked for again, with what is wrong with it.
    pub open spec fn name_refused(self, message: Seq<char>) -> AppView {
        self.ask(
            PromptState::SaveAs {
                input: self.typed_name(),
                cursor: byte_len(self.typed_name()) as int,
                error: Some(message),
            },
        )
    }

    /// It is known what is at the path to save the document at.
    #[verifier::opaque]
    pub open spec fn probed(self, path: PathView, kind: PathKind) -> (AppView, EffectView) {
        match kind {
            PathKind::Directory => (
                self.name_refused(path.full + " is a directory"@),
                EffectView::Nothing,
            ),
            PathKind::File => (
                self.ask(PromptState::Overwrite { path, input: self.typed_name() }),
                EffectView::Nothing,
            ),
            PathKind::Missing => (self, EffectView::WriteAs(path)),
        }
    }

    /// The document was written to a path, or could not be. A failed write does not bind
    /// the document to the path.
    #[verifier::opaque]
    pub open spec fn written_at(self, path: PathView, result: Result<DiskState, Seq<char>>) -> AppView {
        match result {
            Ok(state) => self.saved_as(
                BufferView {
                    path: Some(path),
                    name: None,
                    disk: state,
                    modified: false,
                    ..self.editor.doc
                },
            ).unasked().say("Saved"@),
            Err(e) => self.name_refused("Error: "@ + e),
        }
    }

    /// Unsaved work of an earlier session was looked for.
    #[verifier::opaque]
    pub open spec fn recovery_offered(self, found: Result<Option<Seq<char>>, Seq<char>>) -> AppView {
        match found {
            Ok(Some(content)) => AppView { recovery_content: Some(content), ..self }.ask(
                PromptState::Recovery { error: None },
            ),
            Ok(None) => self,
            Err(e) => self.say("Recovery unavailable: "@ + e),
        }
    }

    /// The recovery was thrown away, or could not be.
    #[verifier::opaque]
    pub open spec fn recovery_discarded(self, failed: Option<Seq<char>>) -> AppView {
        match failed {
            None => self.say("Recovery discarded"@),
            Some(e) => self.ask(
                PromptState::Recovery { error: Some("Discard failed: "@ + e) },
            ),
        }
    }

    /// A document that was read is edited, from its top.
    #[verifier::opaque]
    pub open spec fn document_opened(self, doc: BufferView) -> AppView {
        self.document_set(doc, HistoryView::fresh()).file_view_reset()
    }

    /// The file to open was read, or could not be; the file that was open is remembered
    /// either way.
    #[verifier::opaque]
    pub open spec fn opened(self, result: Result<BufferView, Seq<char>>) -> AppView {
        let v = self.file_remembered();
        let refused = |e: Seq<char>|
            v.ask(
                PromptState::OpenFile {
                    input: self.typed_name(),
                    cursor: byte_len(self.typed_name()) as int,
                    error: Some("Error: "@ + e),
                },
            );
        match result {
            Ok(doc) => if fits(doc.text) {
                v.unasked().document_opened(doc)
            } else {
                refused(TOO_LARGE@)
            },
            Err(e) => refused(e),
        }
    }

    /// A recent file is edited, from where it was left.
    #[verifier::opaque]
    pub open spec fn left_place(self, entry: RecentView) -> AppView {
        let b = self.editor.bytes();
        self.with_editor(
            self.editor.at(floor_boundary(b, least(entry.cursor as int, b.len() as int))).synced(),
        ).with_desk(
            Desk {
                focus_scroll_y: entry.focus_scroll,
                raw_scroll_y: entry.raw_scroll,
                read_scroll_y: entry.read_scroll,
                scroll_y: if self.desk.raw_view {
                    entry.raw_scroll
                } else {
                    entry.focus_scroll
                },
                ..self.desk
            },
        )
    }

    /// A recent file was read, or could not be; the file that was open is remembered either
    /// way.
    #[verifier::opaque]
    pub open spec fn recent_read(self, entry: RecentView, result: Result<BufferView, Seq<char>>) -> AppView {
        let v = self.file_remembered();
        match result {
            Ok(doc) => if fits(doc.text) {
                v.document_set(doc, HistoryView::fresh()).left_place(entry).with_recent(
                    None,
                ).say("Opened recent file"@)
            } else {
                v.say("Could not open file: "@ + TOO_LARGE@)
            },
            Err(e) => v.say("Could not open file: "@ + e),
        }
    }

    /// The file was renamed, or could not be.
    #[verifier::opaque]
    pub open spec fn renamed(self, path: PathView, result: Result<DiskState, Seq<char>>) -> AppView {
        match result {
            Ok(state) => self.with_editor(
                EditorView {
                    doc: BufferView { path: Some(path), disk: state, ..self.editor.doc },
                    ..self.editor
                },
            ).unasked().say("File renamed"@),
            Err(e) => self.ask(
                PromptState::RenameFile {
                    input: self.typed_name(),
                    cursor: byte_len(self.typed_name()) as int,
                    error: Some("Error: "@ + e),
                },
            ),
        }
    }

    /// The file was moved to the trash, or could not be.
    #[verifier::opaque]
    pub open spec fn trashed(self, failed: Option<Seq<char>>) -> AppView {
        match failed {
            None => {
                let v = match self.editor.doc.path {
                    Some(p) => AppView {
                        recent_files: without_path(
                            self.recent_files,
                            p.full,
                            self.recent_files.len() as int,
                        ),
                        ..self
                    },
                    None => self,
                };
                v.document_opened(blank_document()).say("File moved to trash"@)
            },
            Some(e) => self.say("Error: "@ + e),
        }
    }

    /// The recent file that the document is, if it is one of the first `n`.
    pub open spec fn own_entry(self, n: int) -> Option<RecentView>
        decreases n,
    {
        if n <= 0 || self.editor.doc.path is None {
            None
        } else {
            match self.own_entry(n - 1) {
                Some(e) => Some(e),
                None => if self.recent_files[n - 1].path == (self.editor.doc.path->0).key {
                    Some(self.recent_files[n - 1])
                } else {
                    None
                },
            }
        }
    }

    /// The files of earlier sessions are known: those that are still there are kept, and
    /// the document is as it was left.
    #[verifier::opaque]
    pub open spec fn session_loaded(self, files: Seq<RecentView>, there: Seq<bool>) -> AppView {
        let v = AppView {
            recent_files: capped(still_there(files, there, files.len() as int)),
            ..self
        };
        match v.own_entry(v.recent_files.len() as int) {
            Some(entry) => v.session_place(entry),
            None => v,
        }
    }

    /// The document is as it was left, in the editing view.
    pub open spec fn session_place(self, entry: RecentView) -> AppView {
        let b = self.editor.bytes();
        self.with_editor(
            self.editor.at(floor_boundary(b, least(entry.cursor as int, b.len() as int))),
        ).with_desk(
            Desk {
                focus_scroll_y: entry.focus_scroll,
                raw_scroll_y: entry.raw_scroll,
                read_scroll_y: entry.read_scroll,
                scroll_y: entry.focus_scroll,
                ..self.desk
            },
        )
    }
}

/// The view of a result with a text as its error.
pub open spec fn result_view<T>(r: Result<T, String>) -> Result<T, Seq<char>> {
    match r {
        Ok(t) => Ok(t),
        Err(e) => Err(e@),
    }
}

/// The view of what came of reading a file.
pub open spec fn read_view(r: Result<ReadFile, String>) -> Result<BufferView, Seq<char>> {
    match r {
        Ok(file) => Ok(read_document(file)),
        Err(e) => Err(e@),
    }
}

impl App {
    /// The document is saved, and is now in the buffer given.
    #[verifier::spinoff_prover]
    pub fn mark_saved(&mut self, buffer: TextBuffer)
        requires
            old(self).wf(),
            buffer@.text == old(self)@.editor.doc.text,
        ensures
            final(self).wf(),
            final(self)@ == old(self)@.saved_as(buffer@),
    {
        proof {
            reveal(App::seen);
            reveal(App::wf);
            reveal(AppView::saved_as);
        }
        self.editor.set_buffer(buffer);
        self.editor.mark_saved();
        self.editor.set_retry_at(None);
    }

    /// A copy of the document.
    pub fn buffer_copy(&self) -> (buffer: TextBuffer)
        requires
            self.wf(),
        ensures
            buffer@ == self@.editor.doc,
    {
        proof {
            reveal(App::seen);
        }
        self.editor.buffer().copy()
    }

    /// Whether the state of the file is not the one that is known.
    pub fn differs_on_disk(&self, now: DiskState) -> (yes: bool)
        requires
            self.wf(),
        ensures
            yes == (self@.editor.doc.path is Some && now != self@.editor.doc.disk),
    {
        proof {
            reveal(App::seen);
        }
        self.editor.buffer().has_external_change(now)
    }

    /// The state of the file, looked at to save the document.
    #[verifier::spinoff_prover]
    pub fn disk_checked(&mut self, now: Result<DiskState, String>) -> (effect: Effect)
        requires
            old(self).wf(),
            old(self)@.editor.doc.path is Some,
        ensures
            final(self).wf(),
            (final(self)@, effect@) == old(self)@.disk_checked(result_view(now)),
    {
        proof {
            reveal(AppView::disk_checked);
        }
        match now {
            Ok(state) => {
                if self.differs_on_disk(state) {
                    self.set_quit_after_save(false);
                    self.put_prompt(Prompt::ExternalChange { error: None });
                    Effect::Nothing
                } else {
                    Effect::Write
                }
            },
            Err(e) => {
                self.set_quit_after_save(false);
                self.put_status(joined("Error: ", e.as_str()));
                Effect::Nothing
            },
        }
    }

    /// What came of writing the document to its file.
    #[verifier::spinoff_prover]
    pub fn written(&mut self, result: Result<DiskState, String>)
        requires
            old(self).wf(),
        ensures
            final(self).wf(),
            final(self)@ == old(self)@.written(result_view(result)),
    {
        proof {
            reveal(AppView::written);
            reveal(AppView::saved_as);
        }
        match result {
            Ok(state) => {
                let quit = self.desk().quit_after_save;
                let mut buffer = self.buffer_copy();
                buffer.saved(state);
                self.mark_saved(buffer);
                self.set_status("Saved");
                if quit {
                    self.set_quit_after_save(false);
                    self.quit();
                }
            },
            Err(e) => {
                self.set_quit_after_save(false);
                self.put_status(joined("Error: ", e.as_str()));
            },
        }
    }

    /// What came of reading the file again.
    #[verifier::spinoff_prover]
    pub fn reloaded(&mut self, result: Result<(String, DiskState), String>)
        requires
            old(self).wf(),
        ensures
            final(self).wf(),
            final(self)@ == old(self)@.reloaded(
                match result {
                    Ok((text, state)) => Ok((text@, state)),
                    Err(e) => Err(e@),
                },
            ),
    {
        proof {
            reveal(AppView::reloaded);
        }
        match result {
            Ok((text, state)) => {
                if is_fitting(text.as_str()) {
                    let mut buffer = self.buffer_copy();
                    buffer.reload(text.as_str(), state);
                    self.set_document(buffer, false);
                    self.set_status("Reloaded");
                } else {
                    let error = joined("Reload failed: ", TOO_LARGE);
                    self.put_prompt(Prompt::ExternalChange { error: Some(error) });
                }
            },
            Err(e) => {
                let error = joined("Reload failed: ", e.as_str());
                self.put_prompt(Prompt::ExternalChange { error: Some(error) });
            },
        }
    }

    /// What was typed as a name.
    #[verifier::spinoff_prover]
    fn typed_name(&self) -> (name: String)
        requires
            self.wf(),
        ensures
            name@ == self@.typed_name(),
    {
        proof {
            reveal(App::seen);
        }
        match &self.prompt {
            Some(Prompt::SaveAs { input, cursor: _, error: _ }) => input.clone(),
            Some(Prompt::Overwrite { path: _, input }) => input.clone(),
            Some(Prompt::OpenFile { input, cursor: _, error: _ }) => input.clone(),
            Some(Prompt::RenameFile { input, cursor: _, error: _ }) => input.clone(),
            _ => String::new(),
        }
    }

    /// What is at the path to save the document at.
    #[verifier::spinoff_prover]
    pub fn probed(&mut self, path: FilePath, kind: PathKind) -> (effect: Effect)
        requires
            old(self).wf(),
        ensures
            final(self).wf(),
            (final(self)@, effect@) == old(self)@.probed(path@, kind),
    {
        proof {
            reveal(AppView::probed);
        }
        let input = self.typed_name();
        match kind {
            PathKind::Directory => {
                let message = joined(path.full.as_str(), " is a directory");
                self.reopen_save_as(input, Some(message));
                Effect::Nothing
            },
            PathKind::File => {
                self.put_prompt(Prompt::Overwrite { path, input });
                Effect::Nothing
            },
            PathKind::Missing => Effect::WriteAs(path),
        }
    }

    /// What came of writing the document to a path.
    #[verifier::spinoff_prover]
    pub fn written_as(&mut self, path: FilePath, result: Result<DiskState, String>)
        requires
            old(self).wf(),
        ensures
            final(self).wf(),
            final(self)@ == old(self)@.written_at(path@, result_view(result)),
    {
        proof {
            reveal(AppView::written_at);
        }
        match result {
            Ok(state) => {
                let mut buffer = self.buffer_copy();
                buffer.save_as(path, state);
                self.mark_saved(buffer);
                let _ = self.take_prompt();
                self.set_status("Saved");
            },
            Err(e) => {
                let input = self.typed_name();
                self.reopen_save_as(input, Some(joined("Error: ", e.as_str())));
            },
        }
    }

    /// Keep work that was recovered.
    #[verifier::spinoff_prover]
    fn put_recovery(&mut self, content: String)
        requires
            old(self).wf(),
        ensures
            final(self).wf(),
            final(self)@ == (AppView { recovery_content: Some(content@), ..old(self)@ }),
    {
        proof {
            reveal(App::seen);
            reveal(App::wf);
        }
        self.recovery_content = Some(content);
    }

    /// Offer unsaved work of an earlier session that was looked for.
    #[verifier::spinoff_prover]
    pub fn offer_recovery(&mut self, found: Result<Option<String>, String>)
        requires
            old(self).wf(),
        ensures
            final(self).wf(),
            final(self)@ == old(self)@.recovery_offered(
                match found {
                    Ok(content) => Ok(opt_view(content)),
                    Err(e) => Err(e@),
                },
            ),
    {
        proof {
            reveal(AppView::recovery_offered);
        }
        match found {
            Ok(Some(content)) => {
                self.put_recovery(content);
                self.put_prompt(Prompt::Recovery { error: None });
            },
            Ok(None) => {},
            Err(e) => self.put_status(joined("Recovery unavailable: ", e.as_str())),
        }
    }

    /// What came of throwing the recovery away.
    #[verifier::spinoff_prover]
    pub fn recovery_discarded(&mut self, result: Result<(), String>)
        requires
            old(self).wf(),
        ensures
            final(self).wf(),
            final(self)@ == old(self)@.recovery_discarded(outcome(result)),
    {
        proof {
            reveal(AppView::recovery_discarded);
        }
        match result {
            Ok(_) => self.set_status("Recovery discarded"),
            Err(e) => {
                let error = joined("Discard failed: ", e.as_str());
                self.put_prompt(Prompt::Recovery { error: Some(error) });
            },
        }
    }

    /// Edit a document from its top.
    #[verifier::spinoff_prover]
    fn open_document(&mut self, buffer: TextBuffer)
        requires
            old(self).wf(),
            fits(buffer@.text),
        ensures
            final(self).wf(),
            final(self)@ == old(self)@.document_opened(buffer@),
    {
        proof {
            reveal(AppView::document_opened);
        }
        self.set_document(buffer, false);
        self.reset_file_view();
    }

    /// What came of reading the file to open.
    #[verifier::spinoff_prover]
    pub fn file_read(&mut self, result: Result<ReadFile, String>)
        requires
            old(self).wf(),
        ensures
            final(self).wf(),
            final(self)@ == old(self)@.opened(read_view(result)),
    {
        proof {
            reveal(AppView::opened);
        }
        let input = self.typed_name();
        self.remember_current_file();
        match result {
            Ok(file) => {
                let buffer = buffer_of(file);
                if buffer_fits(&buffer) {
                    let _ = self.take_prompt();
                    self.open_document(buffer);
                } else {
                    self.reopen_open_file(input, TOO_LARGE);
                }
            },
            Err(e) => self.reopen_open_file(input, e.as_str()),
        }
    }

    /// Ask for the file to open again.
    #[verifier::spinoff_prover]
    fn reopen_open_file(&mut self, input: String, error: &str)
        requires
            old(self).wf(),
        ensures
            final(self).wf(),
            final(self)@ == old(self)@.ask(
                PromptState::OpenFile {
                    input: input@,
                    cursor: byte_len(input@) as int,
                    error: Some("Error: "@ + error@),
                },
            ),
    {
        proof {
            crate::app::prompt::lemma_input_end(input@);
        }
        let cursor: usize = byte_length(input.as_str());
        let error = Some(joined("Error: ", error));
        self.put_prompt(Prompt::OpenFile { input, cursor, error });
    }

    /// Go to where a recent file was left.
    #[verifier::spinoff_prover]
    fn go_to_left_place(&mut self, entry: &RecentFile)
        requires
            old(self).wf(),
        ensures
            final(self).wf(),
            final(self)@ == old(self)@.left_place(entry@),
    {
        proof {
            reveal(App::seen);
            reveal(App::wf);
            reveal(AppView::left_place);
        }
        let place: usize = self.editor.clamp_place(entry.cursor);
        self.editor.place_cursor(place);
        self.editor.sync_goal();
        self.desk.focus_scroll_y = entry.focus_scroll;
        self.desk.raw_scroll_y = entry.raw_scroll;
        self.desk.read_scroll_y = entry.read_scroll;
        self.desk.scroll_y = if self.desk.raw_view {
            entry.raw_scroll
        } else {
            entry.focus_scroll
        };
    }

    /// What came of reading a recent file.
    #[verifier::spinoff_prover]
    pub fn recent_read(&mut self, entry: RecentFile, result: Result<ReadFile, String>)
        requires
            old(self).wf(),
        ensures
            final(self).wf(),
            final(self)@ == old(self)@.recent_read(entry@, read_view(result)),
    {
        proof {
            reveal(AppView::recent_read);
        }
        self.remember_current_file();
        match result {
            Ok(file) => {
                let buffer = buffer_of(file);
                if buffer_fits(&buffer) {
                    self.set_document(buffer, false);
                    self.go_to_left_place(&entry);
                    let _ = self.take_recent();
                    self.set_status("Opened recent file");
                } else {
                    self.put_status(joined("Could not open file: ", TOO_LARGE));
                }
            },
            Err(e) => self.put_status(joined("Could not open file: ", e.as_str())),
        }
    }

    /// Replace the buffer by one with the same text.
    #[verifier::spinoff_prover]
    fn put_buffer(&mut self, buffer: TextBuffer)
        requires
            old(self).wf(),
            buffer@.text == old(self)@.editor.doc.text,
        ensures
            final(self).wf(),
            final(self)@ == old(self)@.with_editor(
                (EditorView { doc: buffer@, ..old(self)@.editor }),
            ),
    {
        proof {
            reveal(App::seen);
            reveal(App::wf);
        }
        self.editor.set_buffer(buffer);
    }

    /// What came of renaming the file.
    #[verifier::spinoff_prover]
    pub fn renamed(&mut self, path: FilePath, result: Result<DiskState, String>)
        requires
            old(self).wf(),
        ensures
            final(self).wf(),
            final(self)@ == old(self)@.renamed(path@, result_view(result)),
    {
        proof {
            reveal(AppView::renamed);
        }
        match result {
            Ok(state) => {
                let mut buffer = self.buffer_copy();
                buffer.rename_to(path, state);
                self.put_buffer(buffer);
                let _ = self.take_prompt();
                self.set_status("File renamed");
            },
            Err(e) => {
                let input = self.typed_name();
                proof {
                    crate::app::prompt::lemma_input_end(input@);
                }
                let cursor: usize = byte_length(input.as_str());
                let error = Some(joined("Error: ", e.as_str()));
                self.put_prompt(Prompt::RenameFile { input, cursor, error });
            },
        }
    }

    /// Forget the file that is open.
    #[verifier::spinoff_prover]
    fn forget_current_file(&mut self)
        requires
            old(self).wf(),
        ensures
            final(self).wf(),
            final(self)@ == match old(self)@.editor.doc.path {
                Some(p) => AppView {
                    recent_files: without_path(
                        old(self)@.recent_files,
                        p.full,
                        old(self)@.recent_files.len() as int,
                    ),
                    ..old(self)@
                },
                None => old(self)@,
            },
    {
        proof {
            reveal(App::seen);
            reveal(App::wf);
        }
        let known = match self.editor.buffer().path() {
            Some(p) => Some(p.to_owned()),
            None => None,
        };
        match known {
            Some(path) => {
                let mut files: Vec<RecentFile> = Vec::new();
                std::mem::swap(&mut files, &mut self.recent_files);
                self.recent_files = forget(files, path.as_str());
            },
            None => {},
        }
    }

    /// What came of moving the file to the trash.
    #[verifier::spinoff_prover]
    pub fn trashed(&mut self, result: Result<(), String>)
        requires
            old(self).wf(),
        ensures
            final(self).wf(),
            final(self)@ == old(self)@.trashed(outcome(result)),
    {
        proof {
            reveal(AppView::trashed);
        }
        match result {
            Ok(_) => {
                self.forget_current_file();
                let buffer = TextBuffer::empty();
                assert(fits(buffer@.text)) by {
                    assert(vstd::utf8::encode_utf8(Seq::<char>::empty()) =~= Seq::<u8>::empty());
                }
                self.open_document(buffer);
                self.set_status("File moved to trash");
            },
            Err(e) => self.put_status(joined("Error: ", e.as_str())),
        }
    }

    /// What came of opening a web address.
    #[verifier::spinoff_prover]
    pub fn url_opened(&mut self, result: Result<(), String>)
        requires
            old(self).wf(),
        ensures
            final(self).wf(),
            final(self)@ == match outcome(result) {
                None => old(self)@.say("Opened link"@),
                Some(e) => old(self)@.say("Error: "@ + e),
            },
    {
        match result {
            Ok(_) => self.set_status("Opened link"),
            Err(e) => self.put_status(joined("Error: ", e.as_str())),
        }
    }

    /// What came of writing the settings.
    #[verifier::spinoff_prover]
    pub fn settings_saved(&mut self, result: Result<(), String>)
        requires
            old(self).wf(),
        ensures
            final(self).wf(),
            final(self)@ == match outcome(result) {
                None => old(self)@.say("Settings saved"@),
                Some(e) => old(self)@.say("Settings not saved: "@ + e),
            },
    {
        match result {
            Ok(_) => self.set_status("Settings saved"),
            Err(e) => self.put_status(joined("Settings not saved: ", e.as_str())),
        }
    }

    /// The recent file that the document is.
    #[verifier::spinoff_prover]
    fn own_entry(&self) -> (entry: Option<RecentFile>)
        requires
            self.wf(),
        ensures
            match entry {
                Some(e) => self@.own_entry(self@.recent_files.len() as int) == Some(e@),
                None => self@.own_entry(self@.recent_files.len() as int) is None,
            },
    {
        proof {
            reveal(App::seen);
        }
        let key = match self.editor.buffer().path_key() {
            Some(k) => k,
            None => {
                return None;
            },
        };
        let mut found: Option<RecentFile> = None;
        let mut i: usize = 0;
        while i < self.recent_files.len()
            invariant
                i <= self.recent_files@.len(),
                self@.recent_files == recent_views(self.recent_files@),
                self@.editor.doc.path is Some,
                (self@.editor.doc.path->0).key == key@,
                match found {
                    Some(e) => self@.own_entry(i as int) == Some(e@),
                    None => self@.own_entry(i as int) is None,
                },
            decreases self.recent_files@.len() - i,
        {
            assert(self@.recent_files[i as int] == self.recent_files@[i as int]@);
            if found.is_none() && same(self.recent_files[i].path.as_str(), key) {
                found = Some(self.recent_files[i].copy());
            }
            i += 1;
        }
        found
    }

    /// Set the recent files.
    #[verifier::spinoff_prover]
    fn put_files(&mut self, files: Vec<RecentFile>)
        requires
            old(self).wf(),
        ensures
            final(self).wf(),
            final(self)@ == (AppView { recent_files: recent_views(files@), ..old(self)@ }),
    {
        proof {
            reveal(App::seen);
            reveal(App::wf);
        }
        self.recent_files = files;
    }

    /// Go to where the document was left.
    #[verifier::spinoff_prover]
    fn go_to_session_place(&mut self, entry: &RecentFile)
        requires
            old(self).wf(),
        ensures
            final(self).wf(),
            final(self)@ == old(self)@.session_place(entry@),
    {
        proof {
            reveal(App::seen);
            reveal(App::wf);
        }
        let place: usize = self.editor.clamp_place(entry.cursor);
        self.editor.place_cursor(place);
        self.desk.focus_scroll_y = entry.focus_scroll;
        self.desk.raw_scroll_y = entry.raw_scroll;
        self.desk.read_scroll_y = entry.read_scroll;
        self.desk.scroll_y = entry.focus_scroll;
    }

    /// Take over the files of earlier sessions; `there` says which of them still exist.
    #[verifier::spinoff_prover]
    pub fn load_session(&mut self, files: Vec<RecentFile>, there: &Vec<bool>)
        requires
            old(self).wf(),
        ensures
            final(self).wf(),
            final(self)@ == old(self)@.session_loaded(recent_views(files@), there@),
    {
        proof {
            reveal(AppView::session_loaded);
        }
        let kept = present(files, there);
        self.put_files(kept);
        match self.own_entry() {
            Some(entry) => self.go_to_session_place(&entry),
            None => {},
        }
    }

    /// The files to keep for later sessions, with the one that is open.
    #[verifier::spinoff_prover]
    pub fn save_session(&mut self) -> (files: &Vec<RecentFile>)
        requires
            old(self).wf(),
        ensures
            final(self).wf(),
            final(self)@ == old(self)@.file_remembered(),
            recent_views(files@) == final(self)@.recent_files,
    {
        self.remember_current_file();
        proof {
            reveal(App::seen);
        }
        &self.recent_files
    }
}

/// The buffer of a file that was read.
fn buffer_of(file: ReadFile) -> (buffer: TextBuffer)
    ensures
        buffer@ == read_document(file),
{
    match &file.content {
        Some((text, state)) => TextBuffer::from_path(file.path.copy(), Some((text.as_str(), *state))),
        None => TextBuffer::from_path(file.path.copy(), None),
    }
}

/// Whether a document can be edited.
fn buffer_fits(buffer: &TextBuffer) -> (yes: bool)
    ensures
        yes == fits(buffer@.text),
{
    buffer.len_bytes() <= (usize::MAX - 2) / 2
}

} // verus!
