//! The lists that open over the document beside the commands: headings, diagnostics and
//! recent files.

use vstd::prelude::*;

use crate::app::palette::{picker_after, picker_key};
use crate::app::{
    App, AppView, Diagnostics, DiagnosticsView, Effect, EffectView, Mode, Outline, PickerView,
};
use crate::fuzzy::entries;
use crate::line_index::least;
use crate::line_input::{Key, KeyCode};
use crate::outline::{
    heading_views, list_outline, match_headings, outline_lines, outline_matches, outline_views,
    Heading, OutlineItem,
};
use crate::rope::{line_count, line_start};
use crate::session::{recent_matches, RecentFile, RecentItem, RecentPicker};

verus! {

/// One line of the list of diagnostics.
#[derive(Debug)]
pub struct DiagnosticItem {
    pub line: usize,
    pub message: String,
    pub selected: bool,
}

/// What a [`DiagnosticItem`] says.
pub struct DiagnosticItemView {
    pub line: int,
    pub message: Seq<char>,
    pub selected: bool,
}

impl View for DiagnosticItem {
    type V = DiagnosticItemView;

    open spec fn view(&self) -> DiagnosticItemView {
        DiagnosticItemView {
            line: self.line as int,
            message: self.message@,
            selected: self.selected,
        }
    }
}

/// What a [`RecentItem`] says.
pub struct RecentItemView {
    pub path: Seq<char>,
    pub selected: bool,
}

impl View for RecentItem {
    type V = RecentItemView;

    open spec fn view(&self) -> RecentItemView {
        RecentItemView { path: self.path@, selected: self.selected }
    }
}

impl AppView {
    /// The application with an outline, or without one.
    pub open spec fn with_outline(self, outline: Option<PickerView>) -> AppView {
        AppView { outline, ..self }
    }

    /// The application with diagnostics, or without.
    pub open spec fn with_diagnostics(self, diagnostics: Option<DiagnosticsView>) -> AppView {
        AppView { diagnostics, ..self }
    }

    /// The application with a list of recent files, or without one.
    pub open spec fn with_recent(self, recent_picker: Option<PickerView>) -> AppView {
        AppView { recent_picker, ..self }
    }

    /// The cursor is at the beginning of a line.
    pub open spec fn jumped_to_line(self, line: int) -> AppView {
        let b = self.editor.bytes();
        self.jumped(line_start(b, least(line, line_count(b))))
    }

    /// A key in the outline: Enter goes to the heading that is selected.
    #[verifier::opaque]
    pub open spec fn outline_key(self, key: Key) -> AppView {
        let v = self.with_editor(self.editor.with_blocks());
        match self.outline {
            None => v,
            Some(p) => if key.code == KeyCode::Esc {
                v.with_outline(None)
            } else {
                let headings = v.editor.headings();
                let m = outline_matches(headings, p.query);
                if key.code == KeyCode::Enter && p.selected < m.len() {
                    v.with_outline(None).in_mode(self.desk.preset.resting()).jumped_to_line(
                        headings[m[p.selected as int]].line as int,
                    )
                } else {
                    v.with_outline(Some(picker_after(p, key, m.len() as int)))
                }
            },
        }
    }

    /// A key in the list of diagnostics: Enter goes to the line of the one that is selected.
    #[verifier::opaque]
    pub open spec fn diagnostics_key(self, key: Key) -> AppView {
        let closed = self.with_diagnostics(None);
        match self.diagnostics {
            None => closed,
            Some(d) => if key.code == KeyCode::Esc {
                closed
            } else if key.code == KeyCode::Up {
                self.with_diagnostics(
                    Some(DiagnosticsView { selected: d.selected.saturating_sub(1), ..d }),
                )
            } else if key.code == KeyCode::Down {
                let last = (d.items.len() as usize).saturating_sub(1);
                self.with_diagnostics(
                    Some(
                        DiagnosticsView {
                            selected: if d.selected < last {
                                (d.selected + 1) as usize
                            } else {
                                last
                            },
                            ..d
                        },
                    ),
                )
            } else if key.code == KeyCode::Enter {
                if d.selected < d.items.len() {
                    let v = if self.desk.mode == Mode::Read {
                        closed.preview_left()
                    } else {
                        closed
                    };
                    v.jumped_to_line(d.items[d.selected as int].line)
                } else {
                    closed
                }
            } else {
                self
            },
        }
    }

    /// A key in the list of recent files: Enter opens the file that is selected. The list
    /// stays until it is open.
    #[verifier::opaque]
    pub open spec fn recent_key(self, key: Key) -> (AppView, EffectView) {
        match self.recent_picker {
            None => (self, EffectView::Nothing),
            Some(p) => if key.code == KeyCode::Esc {
                (self.with_recent(None), EffectView::Nothing)
            } else {
                let m = recent_matches(self.recent_files, p.query);
                if key.code == KeyCode::Enter && p.selected < m.len() {
                    (self, EffectView::OpenRecent(self.recent_files[m[p.selected as int]]))
                } else {
                    (
                        self.with_recent(Some(picker_after(p, key, m.len() as int))),
                        EffectView::Nothing,
                    )
                }
            },
        }
    }

    /// The lines of the list of diagnostics.
    pub open spec fn diagnostic_lines(self) -> Seq<DiagnosticItemView> {
        match self.diagnostics {
            None => Seq::empty(),
            Some(d) => Seq::new(
                d.items.len(),
                |i: int|
                    DiagnosticItemView {
                        line: d.items[i].line,
                        message: d.items[i].message,
                        selected: i == d.selected,
                    },
            ),
        }
    }

    /// The lines of the list of recent files.
    pub open spec fn recent_lines(self) -> Seq<RecentItemView> {
        match self.recent_picker {
            None => Seq::empty(),
            Some(p) => {
                let m = recent_matches(self.recent_files, p.query);
                Seq::new(
                    m.len(),
                    |i: int|
                        RecentItemView {
                            path: self.recent_files[m[i]].path,
                            selected: i == p.selected,
                        },
                )
            },
        }
    }
}

impl App {
    /// What is typed in the outline.
    pub fn outline_query(&self) -> (query: &str)
        requires
            self.wf(),
        ensures
            query@ == match self@.outline {
                Some(p) => p.query,
                None => ""@,
            },
    {
        proof {
            reveal(App::seen);
        }
        match &self.outline {
            Some(p) => p.query.as_str(),
            None => "",
        }
    }

    /// What is typed in the list of recent files.
    pub fn recent_query(&self) -> (query: &str)
        requires
            self.wf(),
        ensures
            query@ == match self@.recent_picker {
                Some(p) => p.query,
                None => ""@,
            },
    {
        proof {
            reveal(App::seen);
        }
        match &self.recent_picker {
            Some(p) => p.query.as_str(),
            None => "",
        }
    }

    /// The headings of the document.
    #[verifier::spinoff_prover]
    fn headings(&mut self) -> (out: Vec<Heading>)
        requires
            old(self).wf(),
        ensures
            final(self).wf(),
            final(self)@ == old(self)@.with_editor(old(self)@.editor.with_blocks()),
            heading_views(out@) == final(self)@.editor.headings(),
    {
        proof {
            reveal(App::seen);
            reveal(App::wf);
        }
        self.editor.headings()
    }

    /// The lines of the outline.
    #[verifier::spinoff_prover]
    pub fn outline_items(&mut self) -> (items: Vec<OutlineItem>)
        requires
            old(self).wf(),
        ensures
            final(self).wf(),
            final(self)@ == old(self)@.with_editor(old(self)@.editor.with_blocks()),
            outline_views(items@) == match old(self)@.outline {
                Some(p) => outline_lines(
                    final(self)@.editor.headings(),
                    p.query,
                    p.selected,
                    old(self)@.editor.cursor_line(),
                ),
                None => Seq::empty(),
            },
    {
        let headings = self.headings();
        let line: usize = self.cursor_line();
        let items = self.list_headings(&headings, line);
        items
    }

    /// The lines of the outline, of the headings given.
    #[verifier::spinoff_prover]
    fn list_headings(&self, headings: &Vec<Heading>, line: usize) -> (items: Vec<OutlineItem>)
        ensures
            outline_views(items@) == match self@.outline {
                Some(p) => outline_lines(
                    heading_views(headings@),
                    p.query,
                    p.selected,
                    line as int,
                ),
                None => Seq::empty(),
            },
    {
        proof {
            reveal(App::seen);
        }
        match &self.outline {
            Some(p) => list_outline(headings, p.query.as_str(), p.selected, line),
            None => {
                let items: Vec<OutlineItem> = Vec::new();
                assert(outline_views(items@) =~= Seq::empty());
                items
            },
        }
    }

    /// Take the outline away.
    #[verifier::spinoff_prover]
    fn take_outline(&mut self) -> (outline: Option<Outline>)
        requires
            old(self).wf(),
        ensures
            final(self).wf(),
            final(self)@ == old(self)@.with_outline(None),
            match outline {
                Some(p) => old(self)@.outline == Some(p@),
                None => old(self)@.outline is None,
            },
    {
        proof {
            reveal(App::seen);
            reveal(App::wf);
        }
        let mut outline: Option<Outline> = None;
        std::mem::swap(&mut outline, &mut self.outline);
        outline
    }

    /// Show an outline.
    #[verifier::spinoff_prover]
    fn put_outline(&mut self, outline: Outline)
        requires
            old(self).wf(),
        ensures
            final(self).wf(),
            final(self)@ == old(self)@.with_outline(Some(outline@)),
    {
        proof {
            reveal(App::seen);
            reveal(App::wf);
        }
        self.outline = Some(outline);
    }

    /// Put the cursor at the beginning of a line.
    #[verifier::spinoff_prover]
    pub fn jump_to_line(&mut self, line: usize)
        requires
            old(self).wf(),
        ensures
            final(self).wf(),
            final(self)@ == old(self)@.jumped_to_line(line as int),
    {
        let byte: usize = self.line_begin(line);
        self.jump_to_byte(byte);
    }

    /// Where a line begins, or the end of the document where there is no such line.
    #[verifier::spinoff_prover]
    fn line_begin(&self, line: usize) -> (byte: usize)
        requires
            self.wf(),
        ensures
            byte == line_start(
                self@.editor.bytes(),
                least(line as int, line_count(self@.editor.bytes())),
            ),
            crate::bytes::boundary(self@.editor.bytes(), byte as int),
    {
        proof {
            reveal(App::seen);
            reveal(App::wf);
        }
        let count: usize = self.editor.line_count();
        let at: usize = if line < count {
            line
        } else {
            count
        };
        self.editor.line_begin(at)
    }

    /// Handle a key while the outline is open.
    #[verifier::spinoff_prover]
    pub fn handle_outline_key(&mut self, key: Key)
        requires
            old(self).wf(),
        ensures
            final(self).wf(),
            final(self)@ == old(self)@.outline_key(key),
    {
        proof {
            reveal(AppView::outline_key);
        }
        let headings = self.headings();
        let ghost v = self@;
        let outline = match self.take_outline() {
            Some(p) => p,
            None => {
                assert(self@ == v);
                return;
            },
        };
        if key.code == KeyCode::Esc {
            return;
        }
        let m = match_headings(&headings, outline.query.as_str());
        assert(m@.len() == entries(m@).len());
        if key.code == KeyCode::Enter && outline.selected < m.len() {
            let i: usize = m[outline.selected];
            assert(entries(m@)[outline.selected as int] == i as int);
            let line: usize = headings[i].line;
            assert(heading_views(headings@)[i as int].line == line);
            let resting = self.desk().preset.resting_mode();
            self.set_mode(resting);
            self.jump_to_line(line);
            return;
        }
        let (query, selected) = picker_key(outline.query, outline.selected, key, m.len());
        self.put_outline(Outline { query, selected });
    }

    /// The lines of the list of diagnostics.
    #[verifier::spinoff_prover]
    pub fn diagnostic_items(&self) -> (items: Vec<DiagnosticItem>)
        requires
            self.wf(),
        ensures
            items@.map_values(|i: DiagnosticItem| i@) == self@.diagnostic_lines(),
    {
        proof {
            reveal(App::seen);
        }
        let mut items: Vec<DiagnosticItem> = Vec::new();
        match &self.diagnostics {
            None => {},
            Some(d) => {
                let mut i: usize = 0;
                while i < d.items.len()
                    invariant
                        i <= d.items@.len(),
                        items@.len() == i,
                        forall|k: int|
                            0 <= k < i ==> (#[trigger] items@[k])@ == (DiagnosticItemView {
                                line: d.items@[k].line as int,
                                message: d.items@[k].message@,
                                selected: k == d.selected,
                            }),
                    decreases d.items@.len() - i,
                {
                    let item = DiagnosticItem {
                        line: d.items[i].line,
                        message: d.items[i].message.clone(),
                        selected: i == d.selected,
                    };
                    items.push(item);
                    i += 1;
                }
            },
        }
        assert(items@.map_values(|i: DiagnosticItem| i@) =~= self@.diagnostic_lines());
        items
    }

    /// Take the diagnostics away.
    #[verifier::spinoff_prover]
    fn take_diagnostics(&mut self) -> (diagnostics: Option<Diagnostics>)
        requires
            old(self).wf(),
        ensures
            final(self).wf(),
            final(self)@ == old(self)@.with_diagnostics(None),
            match diagnostics {
                Some(d) => old(self)@.diagnostics == Some(d@),
                None => old(self)@.diagnostics is None,
            },
    {
        proof {
            reveal(App::seen);
            reveal(App::wf);
        }
        let mut diagnostics: Option<Diagnostics> = None;
        std::mem::swap(&mut diagnostics, &mut self.diagnostics);
        diagnostics
    }

    /// Show diagnostics.
    #[verifier::spinoff_prover]
    fn put_diagnostics(&mut self, diagnostics: Diagnostics)
        requires
            old(self).wf(),
        ensures
            final(self).wf(),
            final(self)@ == old(self)@.with_diagnostics(Some(diagnostics@)),
    {
        proof {
            reveal(App::seen);
            reveal(App::wf);
        }
        self.diagnostics = Some(diagnostics);
    }

    /// Handle a key while the diagnostics are open.
    #[verifier::spinoff_prover]
    pub fn handle_diagnostics_key(&mut self, key: Key)
        requires
            old(self).wf(),
        ensures
            final(self).wf(),
            final(self)@ == old(self)@.diagnostics_key(key),
    {
        proof {
            reveal(AppView::diagnostics_key);
        }
        let diagnostics = match self.take_diagnostics() {
            Some(d) => d,
            None => {
                return;
            },
        };
        if key.code == KeyCode::Esc {
            return;
        }
        let count: usize = diagnostics.items.len();
        let at: usize = diagnostics.selected;
        if key.code == KeyCode::Enter {
            if at < count {
                let line: usize = diagnostics.items[at].line;
                assert(diagnostics@.items[at as int].line == line as int);
                if self.desk().mode.is_read() {
                    self.leave_preview();
                }
                self.jump_to_line(line);
            }
            return;
        }
        let last: usize = count.saturating_sub(1);
        let selected: usize = if key.code == KeyCode::Up {
            at.saturating_sub(1)
        } else if key.code == KeyCode::Down {
            if at < last {
                at + 1
            } else {
                last
            }
        } else {
            at
        };
        self.put_diagnostics(Diagnostics { items: diagnostics.items, selected });
    }

    /// The recent files that match a query.
    #[verifier::spinoff_prover]
    fn match_recent(&self, picker: &RecentPicker) -> (out: Vec<usize>)
        requires
            self.wf(),
        ensures
            entries(out@) == recent_matches(self@.recent_files, picker.query@),
            forall|i: int| 0 <= i < out@.len() ==> (#[trigger] out@[i]) < self.recent_files@.len(),
    {
        proof {
            reveal(App::seen);
        }
        picker.matches(&self.recent_files)
    }

    /// A recent file.
    #[verifier::spinoff_prover]
    fn recent_file(&self, i: usize) -> (file: RecentFile)
        requires
            i < self.recent_files@.len(),
        ensures
            file@ == self@.recent_files[i as int],
    {
        proof {
            reveal(App::seen);
        }
        self.recent_files[i].copy()
    }

    /// The lines of the list of recent files.
    #[verifier::spinoff_prover]
    pub fn recent_items(&self) -> (items: Vec<RecentItem>)
        requires
            self.wf(),
        ensures
            items@.map_values(|i: RecentItem| i@) == self@.recent_lines(),
    {
        proof {
            reveal(App::seen);
        }
        let mut items: Vec<RecentItem> = Vec::new();
        match &self.recent_picker {
            None => {},
            Some(p) => {
                let m = self.match_recent(p);
                let ghost places = recent_matches(self@.recent_files, p.query@);
                let mut i: usize = 0;
                while i < m.len()
                    invariant
                        i <= m@.len(),
                        places == entries(m@),
                        forall|k: int|
                            0 <= k < m@.len() ==> (#[trigger] m@[k]) < self.recent_files@.len(),
                        items@.len() == i,
                        forall|k: int|
                            0 <= k < i ==> (#[trigger] items@[k])@ == (RecentItemView {
                                path: self@.recent_files[places[k]].path,
                                selected: k == p.selected,
                            }),
                    decreases m@.len() - i,
                {
                    let file = self.recent_file(m[i]);
                    assert(entries(m@)[i as int] == m@[i as int] as int);
                    items.push(RecentItem { path: file.path, selected: i == p.selected });
                    i += 1;
                }
                assert(places.len() == m@.len());
            },
        }
        assert(items@.map_values(|i: RecentItem| i@) =~= self@.recent_lines());
        items
    }

    /// Take the list of recent files away.
    #[verifier::spinoff_prover]
    pub fn take_recent(&mut self) -> (picker: Option<RecentPicker>)
        requires
            old(self).wf(),
        ensures
            final(self).wf(),
            final(self)@ == old(self)@.with_recent(None),
            final(self).recent_files == old(self).recent_files,
            match picker {
                Some(p) => old(self)@.recent_picker == Some(p@),
                None => old(self)@.recent_picker is None,
            },
    {
        proof {
            reveal(App::seen);
            reveal(App::wf);
        }
        let mut picker: Option<RecentPicker> = None;
        std::mem::swap(&mut picker, &mut self.recent_picker);
        picker
    }

    /// Show a list of recent files, or none.
    #[verifier::spinoff_prover]
    pub fn put_recent(&mut self, picker: RecentPicker)
        requires
            old(self).wf(),
        ensures
            final(self).wf(),
            final(self)@ == old(self)@.with_recent(Some(picker@)),
    {
        proof {
            reveal(App::seen);
            reveal(App::wf);
        }
        self.recent_picker = Some(picker);
    }

    /// Handle a key while the list of recent files is open.
    #[verifier::spinoff_prover]
    pub fn handle_recent_key(&mut self, key: Key) -> (effect: Effect)
        requires
            old(self).wf(),
        ensures
            final(self).wf(),
            (final(self)@, effect@) == old(self)@.recent_key(key),
    {
        proof {
            reveal(AppView::recent_key);
        }
        let picker = match self.take_recent() {
            Some(p) => p,
            None => {
                assert(self@ == old(self)@);
                return Effect::Nothing;
            },
        };
        if key.code == KeyCode::Esc {
            return Effect::Nothing;
        }
        let m = self.match_recent(&picker);
        assert(m@.len() == entries(m@).len());
        if key.code == KeyCode::Enter && picker.selected < m.len() {
            let i: usize = m[picker.selected];
            assert(entries(m@)[picker.selected as int] == i as int);
            let file = self.recent_file(i);
            self.put_recent(picker);
            assert(self@ == old(self)@);
            return Effect::OpenRecent(file);
        }
        let (query, selected) = picker_key(picker.query, picker.selected, key, m.len());
        self.put_recent(RecentPicker { query, selected });
        Effect::Nothing
    }
}

} // verus!
