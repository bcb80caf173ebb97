//! The bottom-line input prompt.
//!
//! Saving an unnamed buffer (e.g. one started empty or piped from stdin) opens a
//! "Save as" prompt at the status line, pre-filled with `.md` and the cursor
//! before the extension so typing a name yields `name.md`. Confirming an
//! existing path asks for an overwrite (`y`/`n`), mirroring how nano guards a
//! write.

use vstd::prelude::*;
use vstd::utf8::*;

use crate::app::{App, AppView, Effect, EffectView, Prompt, PromptState};
use crate::buffer::{BufferView, FilePath, PathView};
use crate::bytes::{boundary, lemma_boundary_ends};
use crate::history::HistoryView;
use crate::line_input::{edit_line, line_edited, Key, KeyCode};
use crate::editor::EditorView;
use crate::matches::{found, SearchKey, SearchMatch, SearchOptions};
use crate::search::{scope_after, FindRestore};
use crate::strings::{
    byte_len, byte_length, decimal, joined, lemma_trimmed_is_kept, opt_view, push_decimal, same,
    to_chars, trim, trimmed, white_space,
};

verus! {

/// What the UI needs to draw the active prompt on the status line.
#[derive(Debug)]
pub struct PromptView {
    pub text: String,
    /// Display column of the input cursor within the line, if the prompt edits text.
    pub cursor_col: Option<u16>,
}

/// A path below a directory.
pub open spec fn below(home: Seq<char>, rest: Seq<char>) -> Seq<char> {
    if rest.len() == 0 {
        home
    } else if rest[0] == '/' {
        rest
    } else if home.len() == 0 || home.last() == '/' {
        home + rest
    } else {
        home + "/"@ + rest
    }
}

/// The path that a typed filename stands for: without surrounding whitespace, and with a
/// leading `~` expanded. An empty name stands for none. Relative paths stay relative.
pub open spec fn save_path(input: Seq<char>, home: Option<Seq<char>>) -> Option<Seq<char>> {
    let t = trimmed(input);
    if t.len() == 0 {
        None
    } else if t[0] == '~' && home is Some && (t.len() == 1 || t[1] == '/') {
        Some(
            below(
                home->0,
                if t.len() == 1 {
                    Seq::empty()
                } else {
                    t.skip(2)
                },
            ),
        )
    } else {
        Some(t)
    }
}

/// Resolve the typed filename to a path: trim surrounding whitespace, reject an
/// empty name, and expand a leading `~`. Relative paths stay relative and the OS
/// resolves them against the working directory at write time.
pub fn resolve_save_path(input: &str, home: &Option<String>) -> (path: Option<String>)
    ensures
        opt_view(path) == save_path(input@, opt_view(*home)),
{
    let t = trim(input);
    let chars = to_chars(t.as_str());
    if chars.len() == 0 {
        return None;
    }
    match home {
        Some(h) => {
            if chars[0] == '~' && (chars.len() == 1 || chars[1] == '/') {
                let rest = if chars.len() == 1 {
                    String::new()
                } else {
                    crate::strings::from_chars(&chars, 2, chars.len())
                };
                assert(chars@.len() > 1 ==> rest@ =~= chars@.skip(2));
                return Some(join_path(h.as_str(), rest.as_str()));
            }
        },
        None => {},
    }
    Some(t)
}

/// A path below a directory.
fn join_path(home: &str, rest: &str) -> (path: String)
    ensures
        path@ == below(home@, rest@),
{
    let h = to_chars(home);
    let r = to_chars(rest);
    if r.len() == 0 {
        return home.to_owned();
    }
    if r[0] == '/' {
        return rest.to_owned();
    }
    if h.len() == 0 || h[h.len() - 1] == '/' {
        return joined(home, rest);
    }
    let base = joined(home, "/");
    joined(base.as_str(), rest)
}

/// The search options after a key with Alt, if it toggles one.
pub open spec fn options_toggled(key: Key, o: SearchOptions, scoped: bool) -> Option<SearchOptions> {
    if !key.alt {
        None
    } else {
        match key.code {
            KeyCode::Char(c) => if c == 'c' || c == 'C' {
                Some(SearchOptions { case_sensitive: !o.case_sensitive, ..o })
            } else if c == 'w' || c == 'W' {
                Some(SearchOptions { whole_word: !o.whole_word, ..o })
            } else if c == 'r' || c == 'R' {
                Some(SearchOptions { regex: !o.regex, ..o })
            } else if c == 's' || c == 'S' {
                Some(SearchOptions { selection_only: scoped && !o.selection_only, ..o })
            } else {
                None
            },
            _ => None,
        }
    }
}

/// The search options after a key with Alt, if it toggles one.
fn toggle_option(key: Key, o: SearchOptions, scoped: bool) -> (out: Option<SearchOptions>)
    ensures
        out == options_toggled(key, o, scoped),
{
    if !key.alt {
        return None;
    }
    let mut t = o;
    match key.code {
        KeyCode::Char(c) => {
            if c == 'c' || c == 'C' {
                t.case_sensitive = !o.case_sensitive;
            } else if c == 'w' || c == 'W' {
                t.whole_word = !o.whole_word;
            } else if c == 'r' || c == 'R' {
                t.regex = !o.regex;
            } else if c == 's' || c == 'S' {
                t.selection_only = scoped && !o.selection_only;
            } else {
                return None;
            }
        },
        _ => {
            return None;
        },
    }
    Some(t)
}

/// Whether a key is the letter given in lower and in upper case.
pub open spec fn letter(code: KeyCode, lower: char, upper: char) -> bool {
    code == KeyCode::Char(lower) || code == KeyCode::Char(upper)
}

/// Whether a key is the letter given in lower and in upper case.
fn is_letter(code: KeyCode, lower: char, upper: char) -> (yes: bool)
    ensures
        yes == letter(code, lower, upper),
{
    code == KeyCode::Char(lower) || code == KeyCode::Char(upper)
}

/// How many occurrences were replaced, in words.
pub open spec fn replaced_text(n: int) -> Seq<char> {
    if n == 0 {
        "No matches"@
    } else if n == 1 {
        "Replaced 1 occurrence"@
    } else {
        "Replaced "@ + decimal(n as nat) + " occurrences"@
    }
}

/// How many occurrences were replaced, in words.
fn replaced_words(n: usize) -> (text: String)
    ensures
        text@ == replaced_text(n as int),
{
    if n == 0 {
        return "No matches".to_owned();
    }
    if n == 1 {
        return "Replaced 1 occurrence".to_owned();
    }
    let mut text = "Replaced ".to_owned();
    push_decimal(&mut text, n);
    text.append(" occurrences");
    text
}

/// An input after a key, and the place in it.
pub open spec fn input_after(key: Key, input: Seq<char>, cursor: int) -> (Seq<char>, int) {
    match line_edited(key, input, cursor) {
        Some(r) => r,
        None => (input, cursor),
    }
}

impl AppView {
    /// The first match of a query from where the search started on is shown.
    pub open spec fn found_again(self, query: Seq<char>) -> AppView {
        self.with_editor(
            self.editor.found_from(self.search_key(query), self.desk.find_origin as int),
        )
    }

    /// The search is over.
    pub open spec fn find_over(self) -> AppView {
        self.returning_to(None).with_options(
            SearchOptions { selection_only: false, ..self.desk.search_options },
        ).scoped(None)
    }

    /// The search is given up: the cursor and the selection are those it began with.
    #[verifier::opaque]
    pub open spec fn find_given_up(self) -> AppView {
        match self.desk.find_restore {
            Some(r) => self.with_editor(
                self.editor.find_cancelled(r),
            ).following().find_over(),
            None => self.find_over(),
        }
    }

    /// A key in the find prompt.
    #[verifier::opaque]
    pub open spec fn find_typed(self, key: Key, input: Seq<char>, cursor: int) -> AppView {
        let same = PromptState::Find { input, cursor };
        match options_toggled(key, self.desk.search_options, self.find_scope is Some) {
            Some(o) => self.with_options(o).found_again(
                input,
            ).ask(same),
            None => if key.code == KeyCode::Esc {
                self.searched(input).find_given_up()
            } else if key.code == KeyCode::Enter || key.code == KeyCode::Down {
                self.searched(input).stepped(input, true, true).ask(same)
            } else if key.code == KeyCode::Up {
                self.searched(input).stepped(input, false, true).ask(same)
            } else if key.code == KeyCode::Tab && input.len() > 0 {
                self.searched(input).ask(
                    PromptState::Replace { query: input, input: Seq::empty(), cursor: 0 },
                )
            } else {
                match line_edited(key, input, cursor) {
                    Some((s, at)) => self.found_again(s).ask(
                        PromptState::Find { input: s, cursor: at },
                    ),
                    None => self.ask(same),
                }
            },
        }
    }

    /// The selected match of a query is replaced and the next one is shown; with no match
    /// selected, one is shown.
    #[verifier::opaque]
    pub open spec fn current_replaced(self, query: Seq<char>, by: Seq<char>) -> AppView {
        let key = self.search_key(query);
        let v = self.with_editor(self.editor.match_replaced(key, by));
        match self.editor.selected_match(key) {
            Some(m) => v.scoped(scope_after(self.find_scope, m, by)).returning_to(None).stepped(
                query,
                true,
                true,
            ),
            None => v.stepped(query, true, true),
        }
    }

    /// Every match of a query is replaced, and the search is over.
    #[verifier::opaque]
    pub open spec fn all_replaced(self, query: Seq<char>, by: Seq<char>) -> AppView {
        let key = self.search_key(query);
        self.with_editor(self.editor.matches_replaced(key, by)).say(
            replaced_text(found(self.editor.doc.text, key).len() as int),
        ).searched(query).find_over()
    }

    /// A key in the replace prompt.
    #[verifier::opaque]
    pub open spec fn replace_typed(
        self,
        key: Key,
        query: Seq<char>,
        input: Seq<char>,
        cursor: int,
    ) -> AppView {
        let same = PromptState::Replace { query, input, cursor };
        match options_toggled(key, self.desk.search_options, self.find_scope is Some) {
            Some(o) => self.with_options(o).found_again(
                query,
            ).ask(same),
            None => if key.code == KeyCode::Esc {
                self.searched(query).find_given_up()
            } else if key.code == KeyCode::Tab {
                self.ask(PromptState::Find { input: query, cursor: byte_len(query) as int })
            } else if letter(key.code, 'a', 'A') && key.ctrl() {
                self.all_replaced(query, input)
            } else if key.code == KeyCode::Enter {
                self.current_replaced(query, input).ask(same)
            } else {
                let (s, at) = input_after(key, input, cursor);
                self.ask(PromptState::Replace { query, input: s, cursor: at })
            },
        }
    }

    /// A key while it is asked whether to quit.
    #[verifier::opaque]
    pub open spec fn quit_answered(self, code: KeyCode) -> (AppView, EffectView) {
        if letter(code, 'y', 'Y') {
            (self.quitting(), EffectView::Nothing)
        } else if letter(code, 'w', 'W') {
            // Save first; the save-as prompt opens for an unnamed buffer, in which case the
            // quit is abandoned and the user can ^Q again once the buffer has a name.
            let (v, effect) = self.save_begun();
            (v.quitting_after_save(self.editor.doc.path is Some), effect)
        } else if letter(code, 'n', 'N') || code == KeyCode::Esc {
            (self.say("Quit cancelled"@), EffectView::Nothing)
        } else {
            (self.ask(PromptState::ConfirmQuit), EffectView::Nothing)
        }
    }

    /// A key while it is asked what to do about a file that changed on disk.
    #[verifier::opaque]
    pub open spec fn change_answered(self, code: KeyCode) -> (AppView, EffectView) {
        if letter(code, 'r', 'R') {
            (self, EffectView::Reload)
        } else if letter(code, 'o', 'O') {
            (self, EffectView::Write)
        } else if letter(code, 'a', 'A') {
            let input = match self.editor.doc.path {
                Some(p) => p.full,
                None => ".md"@,
            };
            (
                self.ask(
                    PromptState::SaveAs { input, cursor: byte_len(input) as int, error: None },
                ),
                EffectView::Nothing,
            )
        } else if code == KeyCode::Esc {
            (self.say("Save cancelled"@), EffectView::Nothing)
        } else {
            (self.ask(PromptState::ExternalChange { error: None }), EffectView::Nothing)
        }
    }

    /// A key in the save-as prompt. The prompt stays until it is known what is at the path.
    #[verifier::opaque]
    pub open spec fn save_as_typed(self, key: Key, input: Seq<char>, cursor: int) -> (
        AppView,
        EffectView,
    ) {
        if key.code == KeyCode::Esc {
            (self.say("Save cancelled"@), EffectView::Nothing)
        } else if key.code == KeyCode::Enter {
            match save_path(input, self.home) {
                Some(path) => (
                    self.ask(PromptState::SaveAs { input, cursor, error: None }),
                    EffectView::Probe(path),
                ),
                None => (
                    self.ask(
                        PromptState::SaveAs {
                            input,
                            cursor: byte_len(input) as int,
                            error: Some("invalid name: empty filename"@),
                        },
                    ),
                    EffectView::Nothing,
                ),
            }
        } else {
            let (s, at) = input_after(key, input, cursor);
            (
                self.ask(PromptState::SaveAs { input: s, cursor: at, error: None }),
                EffectView::Nothing,
            )
        }
    }

    /// A key while it is asked whether to overwrite a file.
    #[verifier::opaque]
    pub open spec fn overwrite_answered(self, code: KeyCode, path: PathView, input: Seq<char>) -> (
        AppView,
        EffectView,
    ) {
        let same = self.ask(PromptState::Overwrite { path, input });
        if letter(code, 'y', 'Y') {
            (same, EffectView::WriteAs(path))
        } else if letter(code, 'n', 'N') || code == KeyCode::Esc {
            (
                self.say("Save cancelled"@).ask(
                    PromptState::SaveAs { input, cursor: byte_len(input) as int, error: None },
                ),
                EffectView::Nothing,
            )
        } else {
            (same, EffectView::Nothing)
        }
    }

    /// The work that was recovered is in place of the document.
    pub open spec fn recovery_restored(self, content: Seq<char>) -> AppView {
        let v = self.document_set(
            BufferView {
                text: content,
                crlf: crate::buffer::mostly_crlf(content),
                modified: true,
                ..self.editor.doc
            },
            HistoryView { saved_depth: None, ..HistoryView::fresh() },
        );
        v.with_editor(
            crate::editor::EditorView { last_edit: Some(v.editor.now), ..v.editor },
        ).say("Recovery restored"@)
    }

    /// A key while it is asked what to do with the work that was found.
    #[verifier::opaque]
    pub open spec fn recovery_answered(self, code: KeyCode) -> (AppView, EffectView) {
        let v = AppView { recovery_content: None, ..self };
        if letter(code, 'r', 'R') {
            match self.recovery_content {
                Some(content) => if 2 * byte_len(content) + 2 <= usize::MAX {
                    (v.recovery_restored(content), EffectView::Nothing)
                } else {
                    (
                        v.ask(
                            PromptState::Recovery {
                                error: Some("Restore failed: document is too large"@),
                            },
                        ),
                        EffectView::Nothing,
                    )
                },
                None => (
                    v.ask(
                        PromptState::Recovery {
                            error: Some("Restore failed: recovery content is unavailable"@),
                        },
                    ),
                    EffectView::Nothing,
                ),
            }
        } else if letter(code, 'd', 'D') {
            (v, EffectView::DiscardRecovery)
        } else if code == KeyCode::Esc {
            (self.say("Recovery kept"@), EffectView::Nothing)
        } else {
            (self.ask(PromptState::Recovery { error: None }), EffectView::Nothing)
        }
    }

    /// A key while it is asked whether to open a web address.
    #[verifier::opaque]
    pub open spec fn url_answered(self, code: KeyCode, url: Seq<char>) -> (AppView, EffectView) {
        if letter(code, 'y', 'Y') || code == KeyCode::Enter {
            (self, EffectView::OpenUrl(url))
        } else if letter(code, 'n', 'N') || code == KeyCode::Esc {
            (self.say("Open cancelled"@), EffectView::Nothing)
        } else {
            (self.ask(PromptState::OpenUrl { url }), EffectView::Nothing)
        }
    }

    /// A key in the prompt for a file to open. The prompt stays until the file is read.
    #[verifier::opaque]
    pub open spec fn open_typed(self, key: Key, input: Seq<char>, cursor: int) -> (
        AppView,
        EffectView,
    ) {
        if key.code == KeyCode::Esc {
            (self.say("Open cancelled"@), EffectView::Nothing)
        } else if key.code == KeyCode::Enter {
            match save_path(input, self.home) {
                Some(path) => (
                    self.ask(PromptState::OpenFile { input, cursor, error: None }),
                    EffectView::Open(path),
                ),
                None => (
                    self.ask(
                        PromptState::OpenFile {
                            input,
                            cursor: byte_len(input) as int,
                            error: Some("invalid name: empty filename"@),
                        },
                    ),
                    EffectView::Nothing,
                ),
            }
        } else {
            let (s, at) = input_after(key, input, cursor);
            (
                self.ask(PromptState::OpenFile { input: s, cursor: at, error: None }),
                EffectView::Nothing,
            )
        }
    }

    /// A key in the prompt for the name that the file gets. The prompt stays until the file
    /// has it; a document with unsaved changes is not renamed.
    #[verifier::opaque]
    pub open spec fn rename_typed(self, key: Key, input: Seq<char>, cursor: int) -> (
        AppView,
        EffectView,
    ) {
        if key.code == KeyCode::Esc {
            (self.say("Rename cancelled"@), EffectView::Nothing)
        } else if key.code == KeyCode::Enter {
            match save_path(input, self.home) {
                Some(path) => if self.editor.doc.modified {
                    (
                        self.ask(
                            PromptState::RenameFile {
                                input,
                                cursor: byte_len(input) as int,
                                error: Some("Error: save changes before renaming"@),
                            },
                        ),
                        EffectView::Nothing,
                    )
                } else {
                    (
                        self.ask(PromptState::RenameFile { input, cursor, error: None }),
                        EffectView::Rename(path),
                    )
                },
                None => (
                    self.ask(
                        PromptState::RenameFile {
                            input,
                            cursor: byte_len(input) as int,
                            error: Some("invalid name: empty filename"@),
                        },
                    ),
                    EffectView::Nothing,
                ),
            }
        } else {
            let (s, at) = input_after(key, input, cursor);
            (
                self.ask(PromptState::RenameFile { input: s, cursor: at, error: None }),
                EffectView::Nothing,
            )
        }
    }

    /// A key while it is asked whether to move the file to the trash; a document with
    /// unsaved changes is not moved.
    #[verifier::opaque]
    pub open spec fn trash_answered(self, code: KeyCode) -> (AppView, EffectView) {
        if letter(code, 'y', 'Y') {
            if self.editor.doc.modified {
                (self.say("Error: save changes before moving to trash"@), EffectView::Nothing)
            } else if self.editor.doc.path is None {
                (self.say("Error: document has no file name"@), EffectView::Nothing)
            } else {
                (self, EffectView::Trash)
            }
        } else if letter(code, 'n', 'N') || code == KeyCode::Esc {
            (self.say("Move to trash cancelled"@), EffectView::Nothing)
        } else {
            (self.ask(PromptState::TrashFile), EffectView::Nothing)
        }
    }

    /// A key while a prompt is open.
    #[verifier::opaque]
    pub open spec fn prompt_key(self, key: Key) -> (AppView, EffectView) {
        let v = self.unasked();
        match self.prompt {
            Some(PromptState::SaveAs { input, cursor, error }) => v.save_as_typed(
                key,
                input,
                cursor,
            ),
            Some(PromptState::Overwrite { path, input }) => v.overwrite_answered(
                key.code,
                path,
                input,
            ),
            Some(PromptState::ConfirmQuit) => v.quit_answered(key.code),
            Some(PromptState::ExternalChange { error }) => v.change_answered(key.code),
            Some(PromptState::Find { input, cursor }) => (
                v.find_typed(key, input, cursor),
                EffectView::Nothing,
            ),
            Some(PromptState::Replace { query, input, cursor }) => (
                v.replace_typed(key, query, input, cursor),
                EffectView::Nothing,
            ),
            Some(PromptState::Recovery { error }) => v.recovery_answered(key.code),
            Some(PromptState::OpenUrl { url }) => v.url_answered(key.code, url),
            Some(PromptState::OpenFile { input, cursor, error }) => v.open_typed(
                key,
                input,
                cursor,
            ),
            Some(PromptState::RenameFile { input, cursor, error }) => v.rename_typed(
                key,
                input,
                cursor,
            ),
            Some(PromptState::TrashFile) => v.trash_answered(key.code),
            None => (v, EffectView::Nothing),
        }
    }
}

/// The end of a text is a place between its characters.
pub proof fn lemma_input_end(s: Seq<char>)
    ensures
        boundary(encode_utf8(s), byte_len(s) as int),
        boundary(encode_utf8(s), 0),
{
    encode_utf8_valid_utf8(s);
    lemma_boundary_ends(encode_utf8(s));
}

impl App {
    /// Jump to the first match at or after where the search started (used
    /// while typing the query). Wraps to the first match in the document.
    #[verifier::spinoff_prover]
    fn find_from_origin(&mut self, query: &str)
        requires
            old(self).wf(),
        ensures
            final(self).wf(),
            final(self)@ == old(self)@.found_again(query@),
    {
        proof {
            reveal(App::seen);
            reveal(App::wf);
        }
        let scope = self.search_scope();
        let options: SearchOptions = self.desk().search_options;
        let origin: usize = self.desk().find_origin;
        self.editor.find_from_origin(query, options, scope, origin);
    }

    #[verifier::spinoff_prover]
    fn finish_find(&mut self)
        requires
            old(self).wf(),
        ensures
            final(self).wf(),
            final(self)@ == old(self)@.find_over(),
    {
        let mut options: SearchOptions = self.desk().search_options;
        options.selection_only = false;
        self.set_restore(None);
        self.set_options(options);
        self.put_range(None);
    }

    /// Go back to where a search began.
    #[verifier::spinoff_prover]
    fn restore_place(&mut self, restore: FindRestore)
        requires
            old(self).wf(),
        ensures
            final(self).wf(),
            final(self)@ == old(self)@.with_editor(old(self)@.editor.find_cancelled(restore)),
    {
        proof {
            reveal(App::seen);
            reveal(App::wf);
        }
        self.editor.cancel_find(restore);
    }

    #[verifier::spinoff_prover]
    fn cancel_find(&mut self)
        requires
            old(self).wf(),
        ensures
            final(self).wf(),
            final(self)@ == old(self)@.find_given_up(),
    {
        proof {
            reveal(AppView::find_given_up);
        }
        match self.desk().find_restore {
            Some(restore) => {
                self.restore_place(restore);
                self.follow();
                self.finish_find();
            },
            None => self.finish_find(),
        }
    }

    #[verifier::spinoff_prover]
    fn find_key(&mut self, key: Key, input: String, cursor: usize)
        requires
            old(self).wf(),
            boundary(encode_utf8(input@), cursor as int),
        ensures
            final(self).wf(),
            final(self)@ == old(self)@.find_typed(key, input@, cursor as int),
    {
        proof {
            reveal(AppView::find_typed);
            lemma_input_end(Seq::<char>::empty());
        }
        match toggle_option(key, self.desk().search_options, self.find_range().is_some()) {
            Some(o) => {
                self.set_options(o);
                self.find_from_origin(input.as_str());
                self.put_prompt(Prompt::Find { input, cursor });
                return;
            },
            None => {},
        }
        if key.code == KeyCode::Esc {
            self.put_query(input);
            self.cancel_find();
            return;
        }
        if key.code == KeyCode::Enter || key.code == KeyCode::Down {
            self.put_query(input.clone());
            self.find_step(input.as_str(), true, true);
            self.put_prompt(Prompt::Find { input, cursor });
            return;
        }
        if key.code == KeyCode::Up {
            self.put_query(input.clone());
            self.find_step(input.as_str(), false, true);
            self.put_prompt(Prompt::Find { input, cursor });
            return;
        }
        if key.code == KeyCode::Tab && !input.as_str().is_empty() {
            self.put_query(input.clone());
            self.put_prompt(Prompt::Replace { query: input, input: String::new(), cursor: 0 });
            return;
        }
        let mut text = input;
        let mut at: usize = cursor;
        if edit_line(key, &mut text, &mut at) {
            // Incremental: re-run from where the search started, so
            // refining the query does not walk away down the file.
            self.find_from_origin(text.as_str());
        }
        self.put_prompt(Prompt::Find { input: text, cursor: at });
    }

    /// Replace the currently selected match and step to the next one; with no
    /// match selected, just find the first.
    #[verifier::spinoff_prover]
    fn replace_current(&mut self, query: &str, by: &str)
        requires
            old(self).wf(),
        ensures
            final(self).wf(),
            final(self)@ == old(self)@.current_replaced(query@, by@),
    {
        proof {
            reveal(AppView::current_replaced);
        }
        let scope = self.search_scope();
        let options: SearchOptions = self.desk().search_options;
        let replaced = self.replace_match(query, options, scope, by);
        match replaced {
            Some(m) => {
                let scope = scope_behind(self.find_range(), m, by);
                self.put_range(scope);
                self.set_restore(None);
                self.find_step(query, true, true);
            },
            None => self.find_step(query, true, true),
        }
    }

    /// Replace the selected match, if one is.
    #[verifier::spinoff_prover]
    fn replace_match(
        &mut self,
        query: &str,
        options: SearchOptions,
        scope: Option<(usize, usize)>,
        by: &str,
    ) -> (replaced: Option<SearchMatch>)
        requires
            old(self).wf(),
        ensures
            final(self).wf(),
            replaced == old(self)@.editor.selected_match(
                SearchKey { query: query@, options, scope },
            ),
            replaced is Some ==> (replaced->0).start <= (replaced->0).end,
            final(self)@ == old(self)@.with_editor(
                old(self)@.editor.match_replaced(SearchKey { query: query@, options, scope }, by@),
            ),
    {
        proof {
            reveal(App::seen);
            reveal(App::wf);
        }
        proof {
            reveal(EditorView::selected_match);
        }
        self.editor.replace_selected(query, options, scope, by)
    }

    /// Replace every match; how many there were.
    #[verifier::spinoff_prover]
    fn replace_matches(
        &mut self,
        query: &str,
        options: SearchOptions,
        scope: Option<(usize, usize)>,
        by: &str,
    ) -> (n: usize)
        requires
            old(self).wf(),
        ensures
            final(self).wf(),
            n == found(
                old(self)@.editor.doc.text,
                SearchKey { query: query@, options, scope },
            ).len(),
            final(self)@ == old(self)@.with_editor(
                old(self)@.editor.matches_replaced(
                    SearchKey { query: query@, options, scope },
                    by@,
                ),
            ),
    {
        proof {
            reveal(App::seen);
            reveal(App::wf);
        }
        self.editor.replace_all(query, options, scope, by)
    }

    #[verifier::spinoff_prover]
    fn replace_every(&mut self, query: String, by: &str)
        requires
            old(self).wf(),
        ensures
            final(self).wf(),
            final(self)@ == old(self)@.all_replaced(query@, by@),
    {
        proof {
            reveal(AppView::all_replaced);
        }
        let scope = self.search_scope();
        let options: SearchOptions = self.desk().search_options;
        let n: usize = self.replace_matches(query.as_str(), options, scope, by);
        let text = replaced_words(n);
        self.put_status(text);
        self.put_query(query);
        self.finish_find();
    }

    #[verifier::spinoff_prover]
    fn replace_key(&mut self, key: Key, query: String, input: String, cursor: usize)
        requires
            old(self).wf(),
            boundary(encode_utf8(input@), cursor as int),
        ensures
            final(self).wf(),
            final(self)@ == old(self)@.replace_typed(key, query@, input@, cursor as int),
    {
        proof {
            reveal(AppView::replace_typed);
            lemma_input_end(query@);
        }
        match toggle_option(key, self.desk().search_options, self.find_range().is_some()) {
            Some(o) => {
                self.set_options(o);
                self.find_from_origin(query.as_str());
                self.put_prompt(Prompt::Replace { query, input, cursor });
                return;
            },
            None => {},
        }
        if key.code == KeyCode::Esc {
            self.put_query(query);
            self.cancel_find();
            return;
        }
        if key.code == KeyCode::Tab {
            let end: usize = byte_length(query.as_str());
            self.put_prompt(Prompt::Find { input: query, cursor: end });
            return;
        }
        if is_letter(key.code, 'a', 'A') && key.is_ctrl() {
            self.replace_every(query, input.as_str());
            return;
        }
        if key.code == KeyCode::Enter {
            self.replace_current(query.as_str(), input.as_str());
            self.put_prompt(Prompt::Replace { query, input, cursor });
            return;
        }
        let mut text = input;
        let mut at: usize = cursor;
        edit_line(key, &mut text, &mut at);
        self.put_prompt(Prompt::Replace { query, input: text, cursor: at });
    }

    #[verifier::spinoff_prover]
    fn confirm_quit_key(&mut self, code: KeyCode) -> (effect: Effect)
        requires
            old(self).wf(),
        ensures
            final(self).wf(),
            (final(self)@, effect@) == old(self)@.quit_answered(code),
    {
        proof {
            reveal(AppView::quit_answered);
            reveal(AppView::save_begun);
            reveal(AppView::save_as_opened);
        }
        if is_letter(code, 'y', 'Y') {
            self.quit();
            Effect::Nothing
        } else if is_letter(code, 'w', 'W') {
            let named = self.has_path();
            let effect = self.save();
            self.set_quit_after_save(named);
            effect
        } else if is_letter(code, 'n', 'N') || code == KeyCode::Esc {
            self.set_status("Quit cancelled");
            Effect::Nothing
        } else {
            self.put_prompt(Prompt::ConfirmQuit);
            Effect::Nothing
        }
    }

    /// Ask for a name to save the document under.
    #[verifier::spinoff_prover]
    pub fn reopen_save_as(&mut self, input: String, error: Option<String>)
        requires
            old(self).wf(),
        ensures
            final(self).wf(),
            final(self)@ == old(self)@.ask(
                PromptState::SaveAs {
                    input: input@,
                    cursor: byte_len(input@) as int,
                    error: opt_view(error),
                },
            ),
    {
        proof {
            lemma_input_end(input@);
        }
        let cursor: usize = byte_length(input.as_str());
        self.put_prompt(Prompt::SaveAs { input, cursor, error });
    }

    #[verifier::spinoff_prover]
    fn external_change_key(&mut self, code: KeyCode) -> (effect: Effect)
        requires
            old(self).wf(),
        ensures
            final(self).wf(),
            (final(self)@, effect@) == old(self)@.change_answered(code),
    {
        proof {
            reveal(App::seen);
            reveal(App::wf);
        }
        proof {
            reveal(AppView::change_answered);
        }
        if is_letter(code, 'r', 'R') {
            Effect::Reload
        } else if is_letter(code, 'o', 'O') {
            Effect::Write
        } else if is_letter(code, 'a', 'A') {
            let input = match self.editor.buffer().path() {
                Some(p) => p.to_owned(),
                None => ".md".to_owned(),
            };
            self.reopen_save_as(input, None);
            Effect::Nothing
        } else if code == KeyCode::Esc {
            self.set_status("Save cancelled");
            Effect::Nothing
        } else {
            self.put_prompt(Prompt::ExternalChange { error: None });
            Effect::Nothing
        }
    }

    #[verifier::spinoff_prover]
    fn save_as_key(&mut self, key: Key, input: String, cursor: usize) -> (effect: Effect)
        requires
            old(self).wf(),
            boundary(encode_utf8(input@), cursor as int),
        ensures
            final(self).wf(),
            (final(self)@, effect@) == old(self)@.save_as_typed(key, input@, cursor as int),
    {
        proof {
            reveal(App::seen);
            reveal(App::wf);
        }
        proof {
            reveal(AppView::save_as_typed);
            lemma_input_end(input@);
        }
        if key.code == KeyCode::Esc {
            self.set_status("Save cancelled");
            return Effect::Nothing;
        }
        if key.code == KeyCode::Enter {
            return match resolve_save_path(input.as_str(), &self.home) {
                Some(path) => {
                    self.put_prompt(Prompt::SaveAs { input, cursor, error: None });
                    Effect::Probe(path)
                },
                None => {
                    self.reopen_save_as(input, Some("invalid name: empty filename".to_owned()));
                    Effect::Nothing
                },
            };
        }
        let mut text = input;
        let mut at: usize = cursor;
        edit_line(key, &mut text, &mut at);
        self.put_prompt(Prompt::SaveAs { input: text, cursor: at, error: None });
        Effect::Nothing
    }

    #[verifier::spinoff_prover]
    fn overwrite_key(&mut self, code: KeyCode, path: FilePath, input: String) -> (effect: Effect)
        requires
            old(self).wf(),
        ensures
            final(self).wf(),
            (final(self)@, effect@) == old(self)@.overwrite_answered(code, path@, input@),
    {
        proof {
            reveal(AppView::overwrite_answered);
        }
        if is_letter(code, 'y', 'Y') {
            let target = path.copy();
            self.put_prompt(Prompt::Overwrite { path, input });
            Effect::WriteAs(target)
        } else if is_letter(code, 'n', 'N') || code == KeyCode::Esc {
            self.set_status("Save cancelled");
            self.reopen_save_as(input, None);
            Effect::Nothing
        } else {
            self.put_prompt(Prompt::Overwrite { path, input });
            Effect::Nothing
        }
    }

    /// Put the work that was recovered in place of the document.
    #[verifier::spinoff_prover]
    fn restore_recovery(&mut self, content: &str)
        requires
            old(self).wf(),
            2 * byte_len(content@) + 2 <= usize::MAX,
        ensures
            final(self).wf(),
            final(self)@ == old(self)@.recovery_restored(content@),
    {
        proof {
            reveal(App::seen);
            reveal(App::wf);
        }
        let mut buffer = self.editor.buffer().copy();
        buffer.restore_recovery(content);
        self.set_document(buffer, true);
        self.editor.touch();
        self.set_status("Recovery restored");
    }

    #[verifier::spinoff_prover]
    fn recovery_key(&mut self, code: KeyCode) -> (effect: Effect)
        requires
            old(self).wf(),
        ensures
            final(self).wf(),
            (final(self)@, effect@) == old(self)@.recovery_answered(code),
    {
        proof {
            reveal(App::seen);
            reveal(App::wf);
        }
        proof {
            reveal(AppView::recovery_answered);
        }
        if is_letter(code, 'r', 'R') {
            let mut found: Option<String> = None;
            std::mem::swap(&mut found, &mut self.recovery_content);
            match found {
                Some(content) => {
                    let len: usize = byte_length(content.as_str());
                    if len <= (usize::MAX - 2) / 2 {
                        self.restore_recovery(content.as_str());
                    } else {
                        self.put_prompt(
                            Prompt::Recovery {
                                error: Some("Restore failed: document is too large".to_owned()),
                            },
                        );
                    }
                },
                None => {
                    self.put_prompt(
                        Prompt::Recovery {
                            error: Some(
                                "Restore failed: recovery content is unavailable".to_owned(),
                            ),
                        },
                    );
                },
            }
            Effect::Nothing
        } else if is_letter(code, 'd', 'D') {
            self.recovery_content = None;
            Effect::DiscardRecovery
        } else if code == KeyCode::Esc {
            self.set_status("Recovery kept");
            Effect::Nothing
        } else {
            self.put_prompt(Prompt::Recovery { error: None });
            Effect::Nothing
        }
    }

    #[verifier::spinoff_prover]
    fn open_url_key(&mut self, code: KeyCode, url: String) -> (effect: Effect)
        requires
            old(self).wf(),
        ensures
            final(self).wf(),
            (final(self)@, effect@) == old(self)@.url_answered(code, url@),
    {
        proof {
            reveal(AppView::url_answered);
        }
        if is_letter(code, 'y', 'Y') || code == KeyCode::Enter {
            Effect::OpenUrl(url)
        } else if is_letter(code, 'n', 'N') || code == KeyCode::Esc {
            self.set_status("Open cancelled");
            Effect::Nothing
        } else {
            self.put_prompt(Prompt::OpenUrl { url });
            Effect::Nothing
        }
    }

    #[verifier::spinoff_prover]
    fn open_file_key(&mut self, key: Key, input: String, cursor: usize) -> (effect: Effect)
        requires
            old(self).wf(),
            boundary(encode_utf8(input@), cursor as int),
        ensures
            final(self).wf(),
            (final(self)@, effect@) == old(self)@.open_typed(key, input@, cursor as int),
    {
        proof {
            reveal(App::seen);
            reveal(App::wf);
        }
        proof {
            reveal(AppView::open_typed);
            lemma_input_end(input@);
        }
        if key.code == KeyCode::Esc {
            self.set_status("Open cancelled");
            return Effect::Nothing;
        }
        if key.code == KeyCode::Enter {
            return match resolve_save_path(input.as_str(), &self.home) {
                Some(path) => {
                    self.put_prompt(Prompt::OpenFile { input, cursor, error: None });
                    Effect::Open(path)
                },
                None => {
                    let end: usize = byte_length(input.as_str());
                    self.put_prompt(
                        Prompt::OpenFile {
                            input,
                            cursor: end,
                            error: Some("invalid name: empty filename".to_owned()),
                        },
                    );
                    Effect::Nothing
                },
            };
        }
        let mut text = input;
        let mut at: usize = cursor;
        edit_line(key, &mut text, &mut at);
        self.put_prompt(Prompt::OpenFile { input: text, cursor: at, error: None });
        Effect::Nothing
    }

    #[verifier::spinoff_prover]
    fn rename_file_key(&mut self, key: Key, input: String, cursor: usize) -> (effect: Effect)
        requires
            old(self).wf(),
            boundary(encode_utf8(input@), cursor as int),
        ensures
            final(self).wf(),
            (final(self)@, effect@) == old(self)@.rename_typed(key, input@, cursor as int),
    {
        proof {
            reveal(App::seen);
            reveal(App::wf);
        }
        proof {
            reveal(AppView::rename_typed);
            lemma_input_end(input@);
        }
        if key.code == KeyCode::Esc {
            self.set_status("Rename cancelled");
            return Effect::Nothing;
        }
        if key.code == KeyCode::Enter {
            let end: usize = byte_length(input.as_str());
            let modified = self.is_modified();
            return match resolve_save_path(input.as_str(), &self.home) {
                Some(path) => if modified {
                    self.put_prompt(
                        Prompt::RenameFile {
                            input,
                            cursor: end,
                            error: Some("Error: save changes before renaming".to_owned()),
                        },
                    );
                    Effect::Nothing
                } else {
                    self.put_prompt(Prompt::RenameFile { input, cursor, error: None });
                    Effect::Rename(path)
                },
                None => {
                    self.put_prompt(
                        Prompt::RenameFile {
                            input,
                            cursor: end,
                            error: Some("invalid name: empty filename".to_owned()),
                        },
                    );
                    Effect::Nothing
                },
            };
        }
        let mut text = input;
        let mut at: usize = cursor;
        edit_line(key, &mut text, &mut at);
        self.put_prompt(Prompt::RenameFile { input: text, cursor: at, error: None });
        Effect::Nothing
    }

    #[verifier::spinoff_prover]
    fn trash_file_key(&mut self, code: KeyCode) -> (effect: Effect)
        requires
            old(self).wf(),
        ensures
            final(self).wf(),
            (final(self)@, effect@) == old(self)@.trash_answered(code),
    {
        proof {
            reveal(AppView::trash_answered);
        }
        if is_letter(code, 'y', 'Y') {
            if self.is_modified() {
                self.set_status("Error: save changes before moving to trash");
                Effect::Nothing
            } else if !self.has_path() {
                self.set_status("Error: document has no file name");
                Effect::Nothing
            } else {
                Effect::Trash
            }
        } else if is_letter(code, 'n', 'N') || code == KeyCode::Esc {
            self.set_status("Move to trash cancelled");
            Effect::Nothing
        } else {
            self.put_prompt(Prompt::TrashFile);
            Effect::Nothing
        }
    }

    /// Handle a key while a prompt is open.
    #[verifier::spinoff_prover]
    pub fn handle_prompt_key(&mut self, key: Key) -> (effect: Effect)
        requires
            old(self).wf(),
        ensures
            final(self).wf(),
            (final(self)@, effect@) == old(self)@.prompt_key(key),
    {
        proof {
            reveal(AppView::prompt_key);
        }
        match self.take_prompt() {
            Some(Prompt::SaveAs { input, cursor, error: _ }) => self.save_as_key(
                key,
                input,
                cursor,
            ),
            Some(Prompt::Overwrite { path, input }) => self.overwrite_key(key.code, path, input),
            Some(Prompt::ConfirmQuit) => self.confirm_quit_key(key.code),
            Some(Prompt::ExternalChange { error: _ }) => self.external_change_key(key.code),
            Some(Prompt::Find { input, cursor }) => {
                self.find_key(key, input, cursor);
                Effect::Nothing
            },
            Some(Prompt::Replace { query, input, cursor }) => {
                self.replace_key(key, query, input, cursor);
                Effect::Nothing
            },
            Some(Prompt::Recovery { error: _ }) => self.recovery_key(key.code),
            Some(Prompt::OpenUrl { url }) => self.open_url_key(key.code, url),
            Some(Prompt::OpenFile { input, cursor, error: _ }) => self.open_file_key(
                key,
                input,
                cursor,
            ),
            Some(Prompt::RenameFile { input, cursor, error: _ }) => self.rename_file_key(
                key,
                input,
                cursor,
            ),
            Some(Prompt::TrashFile) => self.trash_file_key(key.code),
            None => Effect::Nothing,
        }
    }
}

/// A scope after a match in it was replaced.
fn scope_behind(scope: Option<(usize, usize)>, m: SearchMatch, by: &str) -> (out: Option<
    (usize, usize),
>)
    requires
        m.start <= m.end,
    ensures
        out == scope_after(scope, m, by@),
{
    match scope {
        Some((from, to)) => if m.end <= to {
            Some((from, to.saturating_add(byte_length(by)).saturating_sub(m.end - m.start)))
        } else {
            scope
        },
        None => None,
    }
}

/// A name that begins with `~/` is below the home directory; any other is taken as it is,
/// without the white space around it, and an empty one is none.
pub proof fn lemma_names_stand_for_paths(name: Seq<char>, home: Seq<char>)
    requires
        name.len() > 0 ==> !white_space(name[0]) && !white_space(name.last()),
        home.len() > 0,
        home.last() != '/',
    ensures
        name.len() == 0 ==> save_path(name, Some(home)) is None,
        name.len() > 2 && name[0] == '~' && name[1] == '/' && name[2] != '/' ==> save_path(
            name,
            Some(home),
        ) == Some(home + "/"@ + name.skip(2)),
        name == seq!['~'] ==> save_path(name, Some(home)) == Some(home),
        name.len() > 0 && name[0] != '~' ==> save_path(name, Some(home)) == Some(name),
        name.len() > 0 ==> save_path(name, None) == Some(name),
{
    lemma_trimmed_is_kept(name);
    if name.len() > 2 {
        assert(name.skip(2)[0] == name[2]);
    }
}

} // verus!
