//! What the status line says: the statistics of the document, and the active prompt.

use vstd::prelude::*;
use vstd::utf8::*;

use crate::app::prompt::PromptView;
use crate::app::{App, AppView, Prompt, PromptState};
use crate::bytes::{boundary, lemma_boundary_ends, slice, text_between};
use crate::matches::{found, matches_fit, SearchMatch, SearchOptions};
use crate::search::{begins_at, match_index};
use crate::strings::{decimal, is_white_space, opt_view, push_decimal, to_chars, white_space};
use crate::text::{columns, width};

verus! {

pub const SAVE_LABEL: &'static str = "Save as: ";

pub const FIND_LABEL: &'static str = "Find: ";

pub const REPLACE_LABEL: &'static str = "Replace with: ";

pub const OPEN_LABEL: &'static str = "Open file: ";

pub const RENAME_LABEL: &'static str = "Rename to: ";

/// The words that are read in a minute.
pub const WORDS_A_MINUTE: usize = 200;

/// How many words begin among the first `n` characters.
pub open spec fn words(s: Seq<char>, n: int) -> int
    decreases n,
{
    if n <= 0 {
        0
    } else {
        words(s, n - 1) + if !white_space(s[n - 1]) && (n == 1 || white_space(s[n - 2])) {
            1int
        } else {
            0int
        }
    }
}

/// The minutes that it takes to read some words: one at least.
pub open spec fn minutes(words: int) -> int {
    let m = (words + WORDS_A_MINUTE - 1) / WORDS_A_MINUTE as int;
    if m < 1 {
        1
    } else {
        m
    }
}

/// The statistics of a text, and of how many characters of it are selected.
pub open spec fn statistics(text: Seq<char>, selected: Option<Seq<char>>) -> Seq<char> {
    let w = words(text, text.len() as int);
    let all = decimal(w as nat) + "w · "@ + decimal(text.len()) + "c · "@ + decimal(
        minutes(w) as nat,
    ) + "m"@;
    match selected {
        Some(s) => all + " · "@ + decimal(s.len()) + " selected"@,
        None => all,
    }
}

/// Count the words of a text.
fn count_words(chars: &Vec<char>) -> (n: usize)
    ensures
        n == words(chars@, chars@.len() as int),
        n <= chars@.len(),
{
    let mut n: usize = 0;
    let mut in_word = false;
    let mut i: usize = 0;
    while i < chars.len()
        invariant
            i <= chars@.len(),
            n == words(chars@, i as int),
            n <= i,
            in_word == (i > 0 && !white_space(chars@[i - 1])),
        decreases chars@.len() - i,
    {
        let blank = is_white_space(chars[i]);
        if !blank && !in_word {
            n += 1;
        }
        in_word = !blank;
        i += 1;
    }
    n
}

/// The minutes that it takes to read some words.
fn reading_minutes(words: usize) -> (m: usize)
    ensures
        m == minutes(words as int),
{
    let whole: usize = words / WORDS_A_MINUTE;
    let m: usize = if words % WORDS_A_MINUTE == 0 {
        whole
    } else {
        whole + 1
    };
    assert(m == (words + WORDS_A_MINUTE - 1) / WORDS_A_MINUTE as int) by (nonlinear_arith)
        requires
            whole == words / WORDS_A_MINUTE,
            m == (if words % WORDS_A_MINUTE == 0 {
                whole as int
            } else {
                whole + 1
            }),
            WORDS_A_MINUTE == 200,
    ;
    if m < 1 {
        1
    } else {
        m
    }
}

/// A label, with what is wrong before it.
pub open spec fn labelled(error: Option<Seq<char>>, label: Seq<char>) -> Seq<char> {
    match error {
        Some(e) => e + " · "@ + label,
        None => label,
    }
}

/// A label, with what is wrong before it.
fn label_with(error: &Option<String>, label: &str) -> (text: String)
    ensures
        text@ == labelled(opt_view(*error), label@),
{
    match error {
        Some(e) => {
            let mut text = e.clone();
            text.append(" · ");
            text.append(label);
            text
        },
        None => label.to_owned(),
    }
}

/// The column of a cursor in what is typed behind a label.
pub open spec fn input_column(label: Seq<char>, input: Seq<char>, cursor: int) -> u16 {
    columns(label).saturating_add(columns(text_between(encode_utf8(input), 0, cursor))) as u16
}

/// The column of a cursor in what is typed behind a label.
fn cursor_column(label: &str, input: &str, cursor: usize) -> (col: u16)
    requires
        boundary(encode_utf8(input@), cursor as int),
    ensures
        col == input_column(label@, input@, cursor as int),
{
    proof {
        encode_utf8_valid_utf8(input@);
        lemma_boundary_ends(encode_utf8(input@));
    }
    let before = slice(input, 0, cursor);
    width(label).saturating_add(width(before)) as u16
}

/// What is said of the matches of a query: none, or which of them is selected, or how many.
pub open spec fn match_text(m: Seq<SearchMatch>, selected: Option<(usize, usize)>) -> Seq<char> {
    if m.len() == 0 {
        "   no matches"@
    } else {
        match selected {
            Some((s, e)) => if begins_at(m, s as int) {
                "   "@ + decimal((first_at(m, s as int) + 1) as nat) + "/"@ + decimal(m.len())
            } else {
                "   "@ + decimal(m.len()) + " matches"@
            },
            None => "   "@ + decimal(m.len()) + " matches"@,
        }
    }
}

/// The first match that begins at a place, where one does.
pub open spec fn first_at(m: Seq<SearchMatch>, at: int) -> int {
    choose|k: int|
        0 <= k < m.len() && (#[trigger] m[k]).start == at && forall|i: int|
            0 <= i < k ==> (#[trigger] m[i]).start != at
}

/// Say which of the matches is selected.
fn match_words(m: &Vec<SearchMatch>, selected: Option<(usize, usize)>) -> (text: String)
    ensures
        text@ == match_text(m@, selected),
{
    if m.len() == 0 {
        return "   no matches".to_owned();
    }
    let mut text = "   ".to_owned();
    match selected {
        Some((s, _)) => match match_index(m, s) {
            Some(k) => {
                assert(first_at(m@, s as int) == k) by {
                    let j = first_at(m@, s as int);
                    assert(m@[k as int].start == s);
                    assert(m@[j].start == s);
                    if j < k {
                        assert(m@[j].start != s);
                    }
                    if k < j {
                        assert(m@[k as int].start != s);
                    }
                }
                push_decimal(&mut text, k + 1);
                text.append("/");
                push_decimal(&mut text, m.len());
                return text;
            },
            None => {},
        },
        None => {},
    }
    push_decimal(&mut text, m.len());
    text.append(" matches");
    text
}

/// What the status line shows of a prompt: its text, and where the cursor is.
pub struct PromptLine {
    pub text: Seq<char>,
    pub cursor_col: Option<u16>,
}

/// A prompt without a cursor.
pub open spec fn plain_line(text: Seq<char>) -> PromptLine {
    PromptLine { text, cursor_col: None }
}

/// A prompt in which something is typed.
pub open spec fn input_line(
    error: Option<Seq<char>>,
    label: Seq<char>,
    input: Seq<char>,
    cursor: int,
) -> PromptLine {
    let l = labelled(error, label);
    PromptLine { text: l + input, cursor_col: Some(input_column(l, input, cursor)) }
}

impl AppView {
    /// The statistics, where they are shown.
    pub open spec fn stats_text(self) -> Option<Seq<char>> {
        if self.desk.show_status_stats {
            Some(
                statistics(
                    self.editor.doc.text,
                    match self.editor.selection() {
                        Some((s, e)) => Some(self.editor.slice(s as int, e as int)),
                        None => None,
                    },
                ),
            )
        } else {
            None
        }
    }

    /// The matches of what is typed in the find prompt, in words.
    pub open spec fn find_words(self, input: Seq<char>) -> Seq<char> {
        if input.len() == 0 {
            Seq::empty()
        } else {
            match_text(
                found(self.editor.doc.text, self.search_key(input)),
                self.editor.selection(),
            )
        }
    }

    /// What the status line shows of the active prompt.
    #[verifier::opaque]
    pub open spec fn prompt_line(self) -> Option<PromptLine> {
        match self.prompt {
            None => None,
            Some(PromptState::SaveAs { input, cursor, error }) => Some(
                input_line(error, SAVE_LABEL@, input, cursor),
            ),
            Some(PromptState::OpenFile { input, cursor, error }) => Some(
                input_line(error, OPEN_LABEL@, input, cursor),
            ),
            Some(PromptState::RenameFile { input, cursor, error }) => Some(
                input_line(error, RENAME_LABEL@, input, cursor),
            ),
            Some(PromptState::Overwrite { path, input }) => Some(
                plain_line("Overwrite "@ + path.full + "?  (y/n)"@),
            ),
            Some(PromptState::ConfirmQuit) => Some(
                plain_line("Unsaved changes — quit without saving?  (y/n, w = write first)"@),
            ),
            Some(PromptState::ExternalChange { error }) => Some(
                plain_line(
                    labelled(
                        error,
                        "File changed on disk — r reload · o overwrite · a save as · Esc cancel"@,
                    ),
                ),
            ),
            Some(PromptState::Recovery { error }) => Some(
                plain_line(
                    labelled(error, "Unsaved recovery found — r restore · d discard · Esc keep"@),
                ),
            ),
            Some(PromptState::OpenUrl { url }) => Some(plain_line("Open "@ + url + "?  (y/n)"@)),
            Some(PromptState::TrashFile) => Some(
                plain_line("Move "@ + self.editor.doc.shown_name() + " to trash?  (y/n)"@),
            ),
            Some(PromptState::Find { input, cursor }) => Some(
                PromptLine {
                    text: FIND_LABEL@ + input + self.find_words(input)
                        + "   (Enter/\u{2193} next · \u{2191} prev · Tab replace · Esc close)"@,
                    cursor_col: Some(input_column(FIND_LABEL@, input, cursor)),
                },
            ),
            Some(PromptState::Replace { query, input, cursor }) => Some(
                PromptLine {
                    text: REPLACE_LABEL@ + input + "   [\""@ + query
                        + "\"]  (Enter replace · ^A all · Tab back · Esc close)"@,
                    cursor_col: Some(input_column(REPLACE_LABEL@, input, cursor)),
                },
            ),
        }
    }

    /// The application once the active prompt was shown: what is typed in the find prompt
    /// was searched for.
    pub open spec fn prompt_shown(self) -> AppView {
        match self.prompt {
            Some(PromptState::Find { input, cursor }) => self.with_editor(
                self.editor.after_search(self.search_key(input)),
            ),
            _ => self,
        }
    }
}

/// What a [`PromptView`] shows.
pub open spec fn shown_line(v: PromptView) -> PromptLine {
    PromptLine { text: v.text@, cursor_col: v.cursor_col }
}

/// A prompt without a cursor.
fn plain_view(text: String) -> (view: PromptView)
    ensures
        shown_line(view) == plain_line(text@),
{
    PromptView { text, cursor_col: None }
}

/// A text between two others.
fn framed(before: &str, text: &str, after: &str) -> (out: String)
    ensures
        out@ == before@ + text@ + after@,
{
    let mut out = before.to_owned();
    out.append(text);
    out.append(after);
    out
}

/// A prompt in which something is typed.
fn input_view(error: &Option<String>, label: &str, input: &str, cursor: usize) -> (view: PromptView)
    requires
        boundary(encode_utf8(input@), cursor as int),
    ensures
        shown_line(view) == input_line(opt_view(*error), label@, input@, cursor as int),
{
    let mut text = label_with(error, label);
    let col: u16 = cursor_column(text.as_str(), input, cursor);
    text.append(input);
    PromptView { text, cursor_col: Some(col) }
}

impl App {
    /// The statistics of the document, where they are shown.
    #[verifier::spinoff_prover]
    pub fn status_stats_text(&self) -> (text: Option<String>)
        requires
            self.wf(),
        ensures
            opt_view(text) == self@.stats_text(),
    {
        proof {
            reveal(App::seen);
            reveal(App::wf);
            self.editor.lemma_ok();
        }
        if !self.desk.show_status_stats {
            return None;
        }
        let source = self.editor.text();
        let chars = to_chars(source.as_str());
        let n: usize = count_words(&chars);
        let mut out = String::new();
        push_decimal(&mut out, n);
        assert(out@ =~= decimal(n as nat));
        out.append("w · ");
        push_decimal(&mut out, chars.len());
        out.append("c · ");
        push_decimal(&mut out, reading_minutes(n));
        out.append("m");
        match self.editor.selection_range() {
            Some((s, e)) => {
                let selected = self.editor.slice(s, e);
                let count = to_chars(selected.as_str());
                out.append(" · ");
                push_decimal(&mut out, count.len());
                out.append(" selected");
            },
            None => {},
        }
        Some(out)
    }

    /// Search for what is typed in the find prompt.
    #[verifier::spinoff_prover]
    pub fn search_matches(&mut self, query: &str) -> (matches: Vec<SearchMatch>)
        requires
            old(self).wf(),
        ensures
            final(self).wf(),
            final(self)@ == old(self)@.with_editor(
                old(self)@.editor.after_search(old(self)@.search_key(query@)),
            ),
            matches@ == found(old(self)@.editor.doc.text, old(self)@.search_key(query@)),
            matches_fit(matches@, old(self)@.editor.bytes()),
    {
        let scope = self.search_scope();
        let options: SearchOptions = self.desk().search_options;
        proof {
            reveal(App::seen);
            reveal(App::wf);
        }
        self.editor.search_matches(query, options, scope)
    }

    /// What is typed in the find prompt, and where.
    #[verifier::spinoff_prover]
    fn find_input(&self) -> (r: Option<(String, usize)>)
        requires
            self.wf(),
        ensures
            match r {
                Some((input, cursor)) => self@.prompt == Some(
                    PromptState::Find { input: input@, cursor: cursor as int },
                ) && boundary(encode_utf8(input@), cursor as int),
                None => !(self@.prompt is Some && self@.prompt->0 is Find),
            },
    {
        proof {
            reveal(App::seen);
            reveal(App::wf);
        }
        match &self.prompt {
            Some(Prompt::Find { input, cursor }) => Some((input.clone(), *cursor)),
            _ => None,
        }
    }

    /// What the status line shows of the find prompt.
    #[verifier::spinoff_prover]
    fn find_view(&mut self, input: &str, cursor: usize) -> (view: PromptView)
        requires
            old(self).wf(),
            boundary(encode_utf8(input@), cursor as int),
        ensures
            final(self).wf(),
            final(self)@ == old(self)@.with_editor(
                old(self)@.editor.after_search(old(self)@.search_key(input@)),
            ),
            shown_line(view) == (PromptLine {
                text: FIND_LABEL@ + input@ + old(self)@.find_words(input@)
                    + "   (Enter/\u{2193} next · \u{2191} prev · Tab replace · Esc close)"@,
                cursor_col: Some(input_column(FIND_LABEL@, input@, cursor as int)),
            }),
    {
        let mut text = FIND_LABEL.to_owned();
        text.append(input);
        let selected = self.selection_range();
        let matches = self.search_matches(input);
        if !input.is_empty() {
            let found = match_words(&matches, selected);
            text.append(found.as_str());
        } else {
            assert(text@ =~= FIND_LABEL@ + input@ + Seq::<char>::empty());
        }
        text.append("   (Enter/\u{2193} next · \u{2191} prev · Tab replace · Esc close)");
        PromptView { text, cursor_col: Some(cursor_column(FIND_LABEL, input, cursor)) }
    }

    /// What the status line shows of a prompt other than the find prompt.
    #[verifier::spinoff_prover]
    fn still_view(&self) -> (view: Option<PromptView>)
        requires
            self.wf(),
            !(self@.prompt is Some && self@.prompt->0 is Find),
        ensures
            match view {
                Some(v) => self@.prompt_line() == Some(shown_line(v)),
                None => self@.prompt_line() is None,
            },
    {
        proof {
            reveal(App::seen);
            reveal(App::wf);
            reveal(AppView::prompt_line);
        }
        match &self.prompt {
            None => None,
            Some(Prompt::SaveAs { input, cursor, error }) => Some(
                input_view(error, SAVE_LABEL, input.as_str(), *cursor),
            ),
            Some(Prompt::OpenFile { input, cursor, error }) => Some(
                input_view(error, OPEN_LABEL, input.as_str(), *cursor),
            ),
            Some(Prompt::RenameFile { input, cursor, error }) => Some(
                input_view(error, RENAME_LABEL, input.as_str(), *cursor),
            ),
            Some(Prompt::Overwrite { path, input: _ }) => Some(
                plain_view(framed("Overwrite ", path.full.as_str(), "?  (y/n)")),
            ),
            Some(Prompt::ConfirmQuit) => Some(
                plain_view(
                    "Unsaved changes — quit without saving?  (y/n, w = write first)".to_owned(),
                ),
            ),
            Some(Prompt::ExternalChange { error }) => Some(
                plain_view(
                    label_with(
                        error,
                        "File changed on disk — r reload · o overwrite · a save as · Esc cancel",
                    ),
                ),
            ),
            Some(Prompt::Recovery { error }) => Some(
                plain_view(
                    label_with(error, "Unsaved recovery found — r restore · d discard · Esc keep"),
                ),
            ),
            Some(Prompt::OpenUrl { url }) => Some(
                plain_view(framed("Open ", url.as_str(), "?  (y/n)")),
            ),
            Some(Prompt::TrashFile) => {
                let name = self.editor.buffer().file_name();
                Some(plain_view(framed("Move ", name.as_str(), " to trash?  (y/n)")))
            },
            Some(Prompt::Replace { query, input, cursor }) => {
                let mut text = REPLACE_LABEL.to_owned();
                text.append(input.as_str());
                text.append("   [\"");
                text.append(query.as_str());
                text.append("\"]  (Enter replace · ^A all · Tab back · Esc close)");
                let col: u16 = cursor_column(REPLACE_LABEL, input.as_str(), *cursor);
                Some(PromptView { text, cursor_col: Some(col) })
            },
            Some(Prompt::Find { input: _, cursor: _ }) => None,
        }
    }

    /// The active prompt rendered for the status line, if any.
    #[verifier::spinoff_prover]
    pub fn prompt_view(&mut self) -> (view: Option<PromptView>)
        requires
            old(self).wf(),
        ensures
            final(self).wf(),
            final(self)@ == old(self)@.prompt_shown(),
            match view {
                Some(v) => old(self)@.prompt_line() == Some(shown_line(v)),
                None => old(self)@.prompt_line() is None,
            },
    {
        match self.find_input() {
            Some((input, cursor)) => {
                proof {
                    reveal(AppView::prompt_line);
                }
                let view = self.find_view(input.as_str(), cursor);
                Some(view)
            },
            None => self.still_view(),
        }
    }
}

/// The words of two texts with a space between them are those of the two.
pub proof fn lemma_words_are_counted(a: Seq<char>, space: char, b: Seq<char>, n: int)
    requires
        white_space(space),
        0 <= n <= b.len(),
    ensures
        words(a.push(space) + b, a.len() + 1 + n) == words(a, a.len() as int) + words(b, n),
    decreases n,
{
    let s = a.push(space) + b;
    let m = a.len() as int;
    if n > 0 {
        lemma_words_are_counted(a, space, b, n - 1);
        assert(s[m + n] == b[n - 1]);
        if n > 1 {
            assert(s[m + n - 1] == b[n - 2]);
        } else {
            assert(s[m] == space);
        }
        assert(m + 1 + n - 1 == m + n);
        assert(words(s, m + 1 + n) == words(s, m + n) + if !white_space(s[m + n]) && (m + 1 + n == 1
            || white_space(s[m + n - 1])) {
            1int
        } else {
            0int
        });
    } else {
        lemma_words_of_the_beginning(s, a, m);
        assert(s[m] == space);
        assert(words(s, m + 1) == words(s, m));
    }
}

proof fn lemma_words_of_the_beginning(s: Seq<char>, a: Seq<char>, n: int)
    requires
        0 <= n <= a.len() <= s.len(),
        forall|i: int| 0 <= i < a.len() ==> #[trigger] s[i] == a[i],
    ensures
        words(s, n) == words(a, n),
    decreases n,
{
    if n > 0 {
        lemma_words_of_the_beginning(s, a, n - 1);
        assert(s[n - 1] == a[n - 1]);
        if n > 1 {
            assert(s[n - 2] == a[n - 2]);
        }
    }
}

/// What has no space in it is one word.
pub proof fn lemma_one_word(s: Seq<char>, n: int)
    requires
        0 <= n <= s.len(),
        forall|i: int| 0 <= i < s.len() ==> !white_space(#[trigger] s[i]),
    ensures
        words(s, n) == if n == 0 {
            0int
        } else {
            1
        },
    decreases n,
{
    if n > 0 {
        lemma_one_word(s, n - 1);
        assert(!white_space(s[n - 1]));
        if n > 1 {
            assert(!white_space(s[n - 2]));
        }
    }
}

/// The minutes are as many as it takes at two hundred words a minute, and one at least.
pub proof fn lemma_reading_takes_minutes(words: int)
    requires
        words >= 0,
    ensures
        minutes(words) >= 1,
        words <= 200 * minutes(words),
        minutes(words) > 1 ==> words > 200 * (minutes(words) - 1),
{
}

/// The statistics name the words, the characters and the minutes, and then how many
/// characters are selected, if any are.
pub proof fn lemma_statistics_name_the_counts(text: Seq<char>, selected: Option<Seq<char>>)
    ensures
        ({
            let n = words(text, text.len() as int);
            let begun = decimal(n as nat) + "w · "@ + decimal(text.len()) + "c · "@ + decimal(
                minutes(n) as nat,
            ) + "m"@;
            &&& selected is None ==> statistics(text, selected) == begun
            &&& selected is Some ==> statistics(text, selected) == begun + " · "@ + decimal(
                (selected->0).len(),
            ) + " selected"@
        }),
{
}

/// A search tells which of the matches is selected, counted from one, and of how many.
pub proof fn lemma_the_match_is_numbered(m: Seq<SearchMatch>, i: int, end: usize)
    requires
        0 <= i < m.len(),
        forall|a: int, b: int|
            0 <= a < b < m.len() ==> (#[trigger] m[a]).start < (#[trigger] m[b]).start,
    ensures
        match_text(m, Some((m[i].start, end))) == "   "@ + decimal((i + 1) as nat) + "/"@ + decimal(
            m.len(),
        ),
        match_text(m, None) == "   "@ + decimal(m.len()) + " matches"@,
        match_text(Seq::empty(), Some((m[i].start, end))) == "   no matches"@,
{
    assert(m[i].start == m[i].start as int);
    assert(begins_at(m, m[i].start as int));
    let k = first_at(m, m[i].start as int);
    assert(0 <= i < m.len() && m[i].start == m[i].start as int && forall|j: int|
        0 <= j < i ==> (#[trigger] m[j]).start != m[i].start as int);
    assert(k == i) by {
        if k < i {
            assert(m[k].start < m[i].start);
        }
        if i < k {
            assert(m[i].start < m[k].start);
        }
    }
}

} // verus!
