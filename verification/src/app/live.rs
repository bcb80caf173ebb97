//! What is on the page: the live view, the source, or the preview.

use vstd::prelude::*;

use crate::app::{App, AppView, Mode};
use crate::live::{
    build_live_view, lemma_the_cursor_is_on_source, live_view, remembered, shows_the_cursor, Live,
    LiveRow,
    LiveRowView, LiveView, Page,
};
use crate::markdown::ast::{parse, parsed};
use crate::markdown::highlight::{CodeHighlighter, CodeLook};
use crate::markdown::preview::{
    document, plain_scene, render_rows, row_views, Row, RowView,
};
use crate::rope::line_count;

verus! {

/// Rows without labels.
pub open spec fn unlabelled(rows: Seq<RowView>) -> Seq<RowView> {
    rows.map_values(|r: RowView| RowView { line: r.line, source: None })
}

impl AppView {
    /// What the live view is made of.
    pub open spec fn live_page(self, look: CodeLook) -> Page {
        Page {
            nodes: parsed(self.editor.doc.text),
            total: line_count(self.editor.bytes()),
            counts: self.editor.layout().counts,
            width: self.editor.wrap_width,
            theme: self.theme,
            look,
            at: self.editor.cursor_line(),
        }
    }

    /// The preview: the document rendered whole.
    pub open spec fn preview(self, look: CodeLook) -> Live {
        Live::nothing().with_shown(
            unlabelled(
                document(
                    plain_scene(self.theme, look),
                    parsed(self.editor.doc.text),
                    self.editor.wrap_width,
                ),
            ),
            0,
        )
    }

    /// The whole document as source.
    pub open spec fn raw_page(self) -> Live {
        Live::nothing().with_open(
            self.editor.layout().counts,
            0,
            line_count(self.editor.bytes()) - 1,
        )
    }

    /// What is on the page, code being highlighted in a look.
    #[verifier::opaque]
    pub open spec fn live(self, look: CodeLook) -> Live {
        if self.desk.mode == Mode::Read {
            self.preview(look)
        } else if self.desk.raw_view {
            self.raw_page()
        } else {
            live_view(self.live_page(look))
        }
    }
}

/// Where the document can be edited, the line of the cursor is on the page as source.
pub proof fn lemma_the_page_shows_the_cursor(v: AppView, look: CodeLook)
    requires
        v.desk.mode != Mode::Read,
        0 <= v.editor.cursor_line() < line_count(v.editor.bytes()),
    ensures
        shows_the_cursor(v.live_page(look), v.live(look)),
{
    reveal(AppView::live);
    let p = v.live_page(look);
    if v.desk.raw_view {
        crate::live::lemma_open_shows(p, Live::nothing(), 0, p.total - 1);
    } else {
        lemma_the_cursor_is_on_source(p);
    }
}

impl App {
    /// The document rendered whole.
    #[verifier::spinoff_prover]
    fn preview_page(&mut self, highlighter: &mut CodeHighlighter) -> (view: LiveView)
        requires
            old(self).wf(),
            old(highlighter).wf(),
        ensures
            final(self).wf(),
            final(self)@ == old(self)@,
            final(highlighter).wf(),
            final(highlighter).look() == old(highlighter).look(),
            view@ == old(self)@.preview(old(highlighter).look()),
    {
        proof {
            reveal(App::seen);
            reveal(App::wf);
        }
        let text = self.editor.text();
        let width: usize = self.editor.wrap_width();
        let rows = render_rows(text.as_str(), width, &self.theme, highlighter);
        let ghost v = row_views(rows@);
        let mut out: Vec<LiveRow> = Vec::new();
        let mut k: usize = 0;
        while k < rows.len()
            invariant
                k <= rows@.len(),
                v == row_views(rows@),
                out@.len() == k,
                forall|i: int|
                    0 <= i < k ==> (#[trigger] out@[i])@ == (LiveRowView::Shown {
                        row: RowView { line: v[i].line, source: None },
                        block: 0,
                    }),
            decreases rows@.len() - k,
        {
            assert(v[k as int] == rows@[k as int]@);
            let row = Row { line: rows[k].line.copy(), source: None };
            out.push(LiveRow::Shown { row, block: 0 });
            k += 1;
        }
        let view = LiveView { rows: out, first: 0, last: 0, top: 0 };
        assert(view@.rows =~= Live::nothing().with_shown(unlabelled(v), 0).rows);
        view
    }

    /// The whole document as source.
    #[verifier::spinoff_prover]
    fn source_page(&mut self) -> (view: LiveView)
        requires
            old(self).wf(),
        ensures
            final(self).wf(),
            final(self)@ == old(self)@,
            view@ == old(self)@.raw_page(),
    {
        proof {
            reveal(App::seen);
            reveal(App::wf);
        }
        let layout = self.editor.layout();
        let total: usize = layout.line_total();
        let mut view = LiveView { rows: Vec::new(), first: 0, last: 0, top: 0 };
        assert(view@ =~= Live::nothing());
        view.add_open(layout, 0, total - 1);
        view
    }

    /// The live view.
    #[verifier::spinoff_prover]
    fn live_page(&mut self, highlighter: &mut CodeHighlighter) -> (view: LiveView)
        requires
            old(self).wf(),
            old(highlighter).wf(),
        ensures
            final(self).wf(),
            final(self)@ == old(self)@,
            final(highlighter).wf(),
            final(highlighter).look() == old(highlighter).look(),
            view@ == live_view(old(self)@.live_page(old(highlighter).look())),
            final(highlighter).memory() == remembered(
                old(self)@.live_page(old(highlighter).look()),
                old(highlighter).memory().turned(),
                0,
            ),
    {
        proof {
            reveal(App::seen);
            reveal(App::wf);
        }
        let text = self.editor.text();
        let nodes = parse(text.as_str());
        let width: usize = self.editor.wrap_width();
        let at: usize = self.editor.cursor_line();
        let theme = self.theme;
        build_live_view(&nodes, self.editor.layout(), width, &theme, highlighter, at)
    }

    /// What is on the page.
    #[verifier::spinoff_prover]
    pub fn live_view(&mut self, highlighter: &mut CodeHighlighter) -> (view: LiveView)
        requires
            old(self).wf(),
            old(highlighter).wf(),
        ensures
            final(self).wf(),
            final(self)@ == old(self)@,
            final(highlighter).wf(),
            final(highlighter).look() == old(highlighter).look(),
            view@ == old(self)@.live(old(highlighter).look()),
            old(self)@.desk.mode != Mode::Read && !old(self)@.desk.raw_view
                ==> final(highlighter).memory() == remembered(
                old(self)@.live_page(old(highlighter).look()),
                old(highlighter).memory().turned(),
                0,
            ),
    {
        proof {
            reveal(AppView::live);
        }
        let desk = self.desk();
        if desk.mode.is_read() {
            self.preview_page(highlighter)
        } else if desk.raw_view {
            self.source_page()
        } else {
            self.live_page(highlighter)
        }
    }
}

} // verus!
