//! The steps that the handlers are made of: each reads or changes one thing.

use vstd::prelude::*;
use vstd::utf8::*;

use crate::app::{prompt_state, App, AppView, Desk, Mode, Prompt};
use crate::block_index::BlockIndexStats;
use crate::editor::EditorView;
use crate::matches::SearchOptions;
use crate::search::FindRestore;
use crate::rope::line_count;
use crate::strings::opt_view;

verus! {

impl AppView {
    /// The application in a mode.
    pub open spec fn in_mode(self, mode: Mode) -> AppView {
        self.with_desk(Desk { mode, ..self.desk })
    }

    /// The application with a pending leader key.
    pub open spec fn awaiting(self, pending: Option<char>) -> AppView {
        self.with_desk(Desk { pending, ..self.desk })
    }

    /// The application with the view following the cursor.
    pub open spec fn following(self) -> AppView {
        self.with_desk(Desk { follow_cursor: true, ..self.desk })
    }

    /// The application without a selection.
    pub open spec fn deselected(self) -> AppView {
        self.with_editor(self.editor.unselected())
    }

    /// The application with the selection anchored at the cursor.
    pub open spec fn marked(self) -> AppView {
        self.with_editor(EditorView { anchor: Some(self.editor.cursor.byte), ..self.editor })
    }

    /// The application with nothing to say.
    pub open spec fn silent(self) -> AppView {
        AppView { status: None, ..self }
    }

    /// The last query is another one.
    pub open spec fn searched(self, query: Seq<char>) -> AppView {
        AppView { last_search: query, ..self }
    }

    /// The search is confined to a range, or to none.
    pub open spec fn scoped(self, find_scope: Option<(usize, usize)>) -> AppView {
        AppView { find_scope, ..self }
    }

    /// The application scrolled to a row.
    pub open spec fn scrolled(self, y: usize) -> AppView {
        self.with_desk(Desk { scroll_y: y, ..self.desk })
    }

    /// Tables are edited row by row, or not.
    pub open spec fn in_table_mode(self, on: bool) -> AppView {
        self.with_desk(Desk { table_mode: on, ..self.desk })
    }

    /// The application with other search options.
    pub open spec fn with_options(self, o: SearchOptions) -> AppView {
        self.with_desk(Desk { search_options: o, ..self.desk })
    }

    /// The application with another place that a search goes back to.
    pub open spec fn returning_to(self, r: Option<FindRestore>) -> AppView {
        self.with_desk(Desk { find_restore: r, ..self.desk })
    }

    /// The application quits.
    pub open spec fn quitting(self) -> AppView {
        self.with_desk(Desk { should_quit: true, ..self.desk })
    }

    /// The application quits once the document is saved, or does not.
    pub open spec fn quitting_after_save(self, on: bool) -> AppView {
        self.with_desk(Desk { quit_after_save: on, ..self.desk })
    }
}

impl App {
    /// The plain state.
    #[verifier::spinoff_prover]
    pub fn desk(&self) -> (r: Desk)
        requires
            self.wf(),
        ensures
            r == self@.desk,
    {
        proof {
            reveal(App::seen);
            reveal(App::wf);
        }
        self.desk
    }

    /// The bytes that the current find session is confined to.
    #[verifier::spinoff_prover]
    pub fn find_range(&self) -> (r: Option<(usize, usize)>)
        requires
            self.wf(),
        ensures
            r == self@.find_scope,
    {
        proof {
            reveal(App::seen);
            reveal(App::wf);
        }
        self.find_scope
    }

    /// The last query.
    #[verifier::spinoff_prover]
    pub fn last_query(&self) -> (r: String)
        requires
            self.wf(),
        ensures
            r@ == self@.last_search,
    {
        proof {
            reveal(App::seen);
            reveal(App::wf);
        }
        self.last_search.clone()
    }

    /// Whether there are unsaved changes.
    #[verifier::spinoff_prover]
    pub fn is_modified(&self) -> (r: bool)
        requires
            self.wf(),
        ensures
            r == self@.editor.doc.modified,
    {
        proof {
            reveal(App::seen);
            reveal(App::wf);
        }
        self.editor.buffer().modified()
    }

    /// Whether the document has a file.
    #[verifier::spinoff_prover]
    pub fn has_path(&self) -> (r: bool)
        requires
            self.wf(),
        ensures
            r == (self@.editor.doc.path is Some),
    {
        proof {
            reveal(App::seen);
            reveal(App::wf);
        }
        self.editor.buffer().has_path()
    }

    /// Whether the cursor is in a table.
    #[verifier::spinoff_prover]
    pub fn is_in_table(&self) -> (r: bool)
        requires
            self.wf(),
        ensures
            r == (self@.editor.table() is Some),
    {
        proof {
            reveal(App::seen);
            reveal(App::wf);
        }
        self.editor.is_in_table()
    }

    /// Whether something is selected, or a mark is set.
    #[verifier::spinoff_prover]
    pub fn has_mark(&self) -> (r: bool)
        requires
            self.wf(),
        ensures
            r == (self@.editor.anchor is Some),
    {
        proof {
            reveal(App::seen);
            reveal(App::wf);
        }
        self.editor.anchor().is_some()
    }

    /// The line ending to insert for Enter and friends, matching the file.
    #[verifier::spinoff_prover]
    pub fn newline(&self) -> (r: &'static str)
        requires
            self.wf(),
        ensures
            r@ == self@.editor.newline(),
    {
        proof {
            reveal(App::seen);
            reveal(App::wf);
        }
        self.editor.newline()
    }

    /// What there is to say.
    #[verifier::spinoff_prover]
    pub fn status_text(&self) -> (r: Option<String>)
        requires
            self.wf(),
        ensures
            opt_view(r) == self@.status,
    {
        proof {
            reveal(App::seen);
            reveal(App::wf);
        }
        crate::app::copy_text(&self.status)
    }

    /// The name that the document is shown under.
    #[verifier::spinoff_prover]
    pub fn shown_name(&self) -> (r: String)
        requires
            self.wf(),
        ensures
            r@ == self@.editor.doc.shown_name(),
    {
        proof {
            reveal(App::seen);
            reveal(App::wf);
        }
        self.editor.buffer().file_name()
    }

    /// Number of lines of the document (always ≥ 1).
    #[verifier::spinoff_prover]
    pub fn line_total(&self) -> (r: usize)
        requires
            self.wf(),
        ensures
            r == line_count(self@.editor.bytes()),
    {
        proof {
            reveal(App::seen);
            reveal(App::wf);
        }
        self.editor.line_count()
    }

    /// How many blocks the document was last parsed into, and how often each way of
    /// parsing was taken.
    #[verifier::spinoff_prover]
    pub fn debug_stats(&self) -> (r: (usize, BlockIndexStats))
        requires
            self.wf(),
        ensures
            r.0 == self@.editor.blocks.blocks.len(),
            r.1 == self@.editor.blocks.stats,
    {
        proof {
            reveal(App::seen);
            reveal(App::wf);
        }
        let blocks = self.editor.known_blocks();
        (blocks.blocks().len(), blocks.stats())
    }

    /// Whether a question is open.
    #[verifier::spinoff_prover]
    pub fn prompt_open(&self) -> (r: bool)
        requires
            self.wf(),
        ensures
            r == (self@.prompt is Some),
    {
        proof {
            reveal(App::seen);
            reveal(App::wf);
        }
        self.prompt.is_some()
    }

    /// Whether the command palette is open.
    #[verifier::spinoff_prover]
    pub fn palette_open(&self) -> (r: bool)
        requires
            self.wf(),
        ensures
            r == (self@.palette is Some),
    {
        proof {
            reveal(App::seen);
            reveal(App::wf);
        }
        self.palette.is_some()
    }

    /// Whether the outline is open.
    #[verifier::spinoff_prover]
    pub fn outline_open(&self) -> (r: bool)
        requires
            self.wf(),
        ensures
            r == (self@.outline is Some),
    {
        proof {
            reveal(App::seen);
            reveal(App::wf);
        }
        self.outline.is_some()
    }

    /// Whether the diagnostics are open.
    #[verifier::spinoff_prover]
    pub fn diagnostics_open(&self) -> (r: bool)
        requires
            self.wf(),
        ensures
            r == (self@.diagnostics is Some),
    {
        proof {
            reveal(App::seen);
            reveal(App::wf);
        }
        self.diagnostics.is_some()
    }

    /// Whether the list of recent files is open.
    #[verifier::spinoff_prover]
    pub fn recent_picker_open(&self) -> (r: bool)
        requires
            self.wf(),
        ensures
            r == (self@.recent_picker is Some),
    {
        proof {
            reveal(App::seen);
            reveal(App::wf);
        }
        self.recent_picker.is_some()
    }

    /// Go to a mode.
    #[verifier::spinoff_prover]
    pub fn set_mode(&mut self, mode: Mode)
        requires
            old(self).wf(),
        ensures
            final(self).wf(),
            final(self)@ == old(self)@.in_mode(mode),
    {
        proof {
            reveal(App::seen);
            reveal(App::wf);
        }
        self.desk.mode = mode;
    }

    /// Set the pending leader key.
    #[verifier::spinoff_prover]
    pub fn set_pending(&mut self, pending: Option<char>)
        requires
            old(self).wf(),
        ensures
            final(self).wf(),
            final(self)@ == old(self)@.awaiting(pending),
    {
        proof {
            reveal(App::seen);
            reveal(App::wf);
        }
        self.desk.pending = pending;
    }

    /// Let the view follow the cursor.
    #[verifier::spinoff_prover]
    pub fn follow(&mut self)
        requires
            old(self).wf(),
        ensures
            final(self).wf(),
            final(self)@ == old(self)@.following(),
    {
        proof {
            reveal(App::seen);
            reveal(App::wf);
        }
        self.desk.follow_cursor = true;
    }

    /// Say nothing.
    #[verifier::spinoff_prover]
    pub fn clear_status(&mut self)
        requires
            old(self).wf(),
        ensures
            final(self).wf(),
            final(self)@ == old(self)@.silent(),
    {
        proof {
            reveal(App::seen);
            reveal(App::wf);
        }
        self.status = None;
    }

    /// Say something.
    #[verifier::spinoff_prover]
    pub fn put_status(&mut self, text: String)
        requires
            old(self).wf(),
        ensures
            final(self).wf(),
            final(self)@ == old(self)@.say(text@),
    {
        proof {
            reveal(App::seen);
            reveal(App::wf);
        }
        self.status = Some(text);
    }

    /// Ask a question.
    #[verifier::spinoff_prover]
    pub fn put_prompt(&mut self, prompt: Prompt)
        requires
            old(self).wf(),
            prompt@.ok(),
        ensures
            final(self).wf(),
            final(self)@ == old(self)@.ask(prompt@),
    {
        proof {
            reveal(App::seen);
            reveal(App::wf);
        }
        self.prompt = Some(prompt);
    }

    /// Take the question away.
    #[verifier::spinoff_prover]
    pub fn take_prompt(&mut self) -> (prompt: Option<Prompt>)
        requires
            old(self).wf(),
        ensures
            final(self).wf(),
            final(self)@ == old(self)@.unasked(),
            prompt_state(prompt) == old(self)@.prompt,
            prompt is Some ==> (prompt->0)@.ok(),
    {
        proof {
            reveal(App::seen);
            reveal(App::wf);
        }
        let mut prompt: Option<Prompt> = None;
        std::mem::swap(&mut prompt, &mut self.prompt);
        prompt
    }

    /// Set the last query.
    #[verifier::spinoff_prover]
    pub fn put_query(&mut self, query: String)
        requires
            old(self).wf(),
        ensures
            final(self).wf(),
            final(self)@ == old(self)@.searched(query@),
    {
        proof {
            reveal(App::seen);
            reveal(App::wf);
        }
        self.last_search = query;
    }

    /// Confine the search to a range, or to none.
    #[verifier::spinoff_prover]
    pub fn put_range(&mut self, range: Option<(usize, usize)>)
        requires
            old(self).wf(),
        ensures
            final(self).wf(),
            final(self)@ == old(self)@.scoped(range),
    {
        proof {
            reveal(App::seen);
            reveal(App::wf);
        }
        self.find_scope = range;
    }

    /// Drop the selection.
    #[verifier::spinoff_prover]
    pub fn deselect(&mut self)
        requires
            old(self).wf(),
        ensures
            final(self).wf(),
            final(self)@ == old(self)@.deselected(),
    {
        proof {
            reveal(App::seen);
            reveal(App::wf);
        }
        self.editor.set_anchor(None);
    }

    /// Anchor the selection at the cursor.
    #[verifier::spinoff_prover]
    pub fn set_mark(&mut self)
        requires
            old(self).wf(),
        ensures
            final(self).wf(),
            final(self)@ == old(self)@.marked(),
    {
        proof {
            reveal(App::seen);
            reveal(App::wf);
        }
        proof {
            self.editor.lemma_ok();
        }
        let at: usize = self.editor.cursor().byte;
        self.editor.set_anchor(Some(at));
    }

    /// Type a character.
    #[verifier::spinoff_prover]
    pub fn type_char(&mut self, c: char)
        requires
            old(self).wf(),
        ensures
            final(self).wf(),
            final(self)@ == old(self)@.with_editor(old(self)@.editor.typed(c)),
    {
        proof {
            reveal(App::seen);
            reveal(App::wf);
        }
        self.editor.insert_char_smart(c);
    }

    /// Begin a new line.
    #[verifier::spinoff_prover]
    pub fn type_newline(&mut self)
        requires
            old(self).wf(),
        ensures
            final(self).wf(),
            final(self)@ == old(self)@.with_editor(
                old(self)@.editor.newline_entered(old(self)@.theme.hard_breaks),
            ),
    {
        proof {
            reveal(App::seen);
            reveal(App::wf);
        }
        self.editor.insert_newline_smart(self.theme.hard_breaks);
    }

    /// Insert `text`, replacing the selection if there is one.
    #[verifier::spinoff_prover]
    pub fn insert_text(&mut self, text: &str)
        requires
            old(self).wf(),
        ensures
            final(self).wf(),
            final(self)@ == old(self)@.with_editor(old(self)@.editor.inserted(text@)),
    {
        proof {
            reveal(App::seen);
            reveal(App::wf);
        }
        self.editor.insert(text);
    }

    /// Delete backwards.
    #[verifier::spinoff_prover]
    pub fn backspace(&mut self)
        requires
            old(self).wf(),
        ensures
            final(self).wf(),
            final(self)@ == old(self)@.with_editor(old(self)@.editor.removed(old(self)@.editor.backspace_range())),
    {
        proof {
            reveal(App::seen);
            reveal(App::wf);
        }
        self.editor.backspace();
    }

    /// Delete forwards.
    #[verifier::spinoff_prover]
    pub fn delete_forward(&mut self)
        requires
            old(self).wf(),
        ensures
            final(self).wf(),
            final(self)@ == old(self)@.with_editor(old(self)@.editor.removed(old(self)@.editor.delete_range())),
    {
        proof {
            reveal(App::seen);
            reveal(App::wf);
        }
        self.editor.delete_forward();
    }

    /// Go to the next or previous cell of the table.
    #[verifier::spinoff_prover]
    pub fn jump_cell(&mut self, forward: bool)
        requires
            old(self).wf(),
        ensures
            final(self).wf(),
            final(self)@ == old(self)@.with_editor(old(self)@.editor.cell_jumped(forward)),
    {
        proof {
            reveal(App::seen);
            reveal(App::wf);
        }
        self.editor.jump_table_cell(forward);
    }

    /// Insert a row into the table.
    #[verifier::spinoff_prover]
    pub fn insert_row(&mut self)
        requires
            old(self).wf(),
        ensures
            final(self).wf(),
            final(self)@ == old(self)@.with_editor(old(self)@.editor.row_inserted().0).say_if(old(self)@.editor.row_inserted().1),
    {
        proof {
            reveal(App::seen);
            reveal(App::wf);
        }
        let status = self.editor.insert_table_row();
        match status {
            Some(text) => {
                self.status = Some(text.to_owned());
            },
            None => {},
        }
    }

    /// Delete the row of the table.
    #[verifier::spinoff_prover]
    pub fn delete_row(&mut self)
        requires
            old(self).wf(),
        ensures
            final(self).wf(),
            final(self)@ == old(self)@.with_editor(old(self)@.editor.row_deleted().0).say_if(old(self)@.editor.row_deleted().1),
    {
        proof {
            reveal(App::seen);
            reveal(App::wf);
        }
        let status = self.editor.delete_table_row();
        match status {
            Some(text) => {
                self.status = Some(text.to_owned());
            },
            None => {},
        }
    }

    /// Move the row of the table.
    #[verifier::spinoff_prover]
    pub fn move_row(&mut self, down: bool)
        requires
            old(self).wf(),
        ensures
            final(self).wf(),
            final(self)@ == old(self)@.with_editor(old(self)@.editor.row_moved(down).0).say_if(old(self)@.editor.row_moved(down).1),
    {
        proof {
            reveal(App::seen);
            reveal(App::wf);
        }
        let status = self.editor.move_table_row(down);
        match status {
            Some(text) => {
                self.status = Some(text.to_owned());
            },
            None => {},
        }
    }

    /// Scroll to a row.
    #[verifier::spinoff_prover]
    pub fn set_scroll(&mut self, y: usize)
        requires
            old(self).wf(),
        ensures
            final(self).wf(),
            final(self)@ == old(self)@.scrolled(y),
    {
        proof {
            reveal(App::seen);
            reveal(App::wf);
        }
        self.desk.scroll_y = y;
    }

    /// Edit tables row by row, or not.
    #[verifier::spinoff_prover]
    pub fn set_table_mode(&mut self, on: bool)
        requires
            old(self).wf(),
        ensures
            final(self).wf(),
            final(self)@ == old(self)@.in_table_mode(on),
    {
        proof {
            reveal(App::seen);
            reveal(App::wf);
        }
        self.desk.table_mode = on;
    }

    /// Set the search options.
    #[verifier::spinoff_prover]
    pub fn set_options(&mut self, o: SearchOptions)
        requires
            old(self).wf(),
        ensures
            final(self).wf(),
            final(self)@ == old(self)@.with_options(o),
    {
        proof {
            reveal(App::seen);
            reveal(App::wf);
        }
        self.desk.search_options = o;
    }

    /// Set the place that a search goes back to.
    #[verifier::spinoff_prover]
    pub fn set_restore(&mut self, r: Option<FindRestore>)
        requires
            old(self).wf(),
        ensures
            final(self).wf(),
            final(self)@ == old(self)@.returning_to(r),
    {
        proof {
            reveal(App::seen);
            reveal(App::wf);
        }
        self.desk.find_restore = r;
    }

    /// Quit.
    #[verifier::spinoff_prover]
    pub fn quit(&mut self)
        requires
            old(self).wf(),
        ensures
            final(self).wf(),
            final(self)@ == old(self)@.quitting(),
    {
        proof {
            reveal(App::seen);
            reveal(App::wf);
        }
        self.desk.should_quit = true;
    }

    /// Quit once the document is saved, or do not.
    #[verifier::spinoff_prover]
    pub fn set_quit_after_save(&mut self, on: bool)
        requires
            old(self).wf(),
        ensures
            final(self).wf(),
            final(self)@ == old(self)@.quitting_after_save(on),
    {
        proof {
            reveal(App::seen);
            reveal(App::wf);
        }
        self.desk.quit_after_save = on;
    }
}

} // verus!
