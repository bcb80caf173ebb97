//! The headings of a document, filtered by a query.

use vstd::prelude::*;
use vstd::utf8::*;

use crate::block_index::{BlockKind, SourceBlock};
use crate::diagnostics::{hash_count, hashed_title, heading_hashes, title_after};
use crate::editor::{Editor, EditorView};
use crate::fuzzy::{entries, fuzzy_score, rank, ranking, score_of};
use crate::formatting::lemma_run_stops;
use crate::line_index::least;
use crate::rope::{line_count, line_start};
use crate::strings::{
    lemma_trimmed_is_kept, lines_from, repeated, strip_end, text_lines, to_chars, trim, trim_start,
    trimmed, views, white_space,
};

verus! {

/// A heading.
#[derive(Debug)]
pub struct Heading {
    pub line: usize,
    pub level: usize,
    pub title: String,
}

/// What a [`Heading`] says.
pub struct HeadingView {
    pub line: usize,
    pub level: usize,
    pub title: Seq<char>,
}

impl View for Heading {
    type V = HeadingView;

    open spec fn view(&self) -> HeadingView {
        HeadingView { line: self.line, level: self.level, title: self.title@ }
    }
}

/// What headings say.
pub open spec fn heading_views(headings: Seq<Heading>) -> Seq<HeadingView> {
    headings.map_values(|h: Heading| h@)
}

/// One line of the outline.
#[derive(Debug)]
pub struct OutlineItem {
    pub line: usize,
    pub level: usize,
    pub title: String,
    pub selected: bool,
    /// Whether the cursor is under this heading.
    pub current: bool,
}

/// What an [`OutlineItem`] says.
pub struct OutlineItemView {
    pub line: usize,
    pub level: usize,
    pub title: Seq<char>,
    pub selected: bool,
    pub current: bool,
}

impl View for OutlineItem {
    type V = OutlineItemView;

    open spec fn view(&self) -> OutlineItemView {
        OutlineItemView {
            line: self.line,
            level: self.level,
            title: self.title@,
            selected: self.selected,
            current: self.current,
        }
    }
}

/// The level and the title of the heading that a block is the source of: hashes before
/// it, or a line of `=` or `-` below it.
pub open spec fn heading_of(source: Seq<char>) -> Option<(usize, Seq<char>)> {
    let lines = lines_from(source, 0);
    if lines.len() == 0 {
        None
    } else {
        let first = trimmed(lines[0]);
        match heading_hashes(first) {
            Some(n) => Some((n as usize, hashed_title(first, n))),
            None => if lines.len() < 2 || trimmed(lines[1]).len() == 0 {
                None
            } else if trimmed(lines[1])[0] == '=' {
                Some((1, first))
            } else if trimmed(lines[1])[0] == '-' {
                Some((2, first))
            } else {
                None
            },
        }
    }
}

/// The level and the title of the heading that a block is the source of.
pub fn parse_heading(source: &str) -> (heading: Option<(usize, String)>)
    ensures
        match heading {
            Some((level, title)) => heading_of(source@) == Some((level, title@)),
            None => heading_of(source@) is None,
        },
{
    let lines = text_lines(source);
    let ghost v = views(lines@);
    assert(v.len() == lines@.len());
    if lines.len() == 0 {
        return None;
    }
    assert(v[0] == lines@[0]@);
    let first = trim(lines[0].as_str());
    let chars = to_chars(first.as_str());
    if let Some(n) = hash_count(&chars) {
        return Some((n, title_after(&chars, n)));
    }
    if lines.len() < 2 {
        return None;
    }
    assert(v[1] == lines@[1]@);
    let under = to_chars(trim(lines[1].as_str()).as_str());
    if under.len() == 0 {
        return None;
    }
    if under[0] == '=' {
        Some((1, first))
    } else if under[0] == '-' {
        Some((2, first))
    } else {
        None
    }
}

impl EditorView {
    /// The editor with the blocks of its text.
    pub open spec fn with_blocks(self) -> EditorView {
        EditorView {
            blocks: if self.blocks.version == Some(self.version) {
                self.blocks
            } else {
                self.blocks.rebuilt(self.doc.text, self.version)
            },
            ..self
        }
    }

    /// The source of a block.
    pub open spec fn block_source(self, block: SourceBlock) -> Seq<char> {
        let total = line_count(self.bytes());
        let from = line_start(self.bytes(), least(block.start_line as int, total));
        let to = line_start(self.bytes(), least(block.end_line + 1, total));
        if from <= to {
            self.slice(from, to)
        } else {
            Seq::empty()
        }
    }

    /// The headings among the first `n` blocks.
    pub open spec fn headings_upto(self, n: int) -> Seq<HeadingView>
        decreases n,
    {
        if n <= 0 {
            Seq::empty()
        } else {
            let before = self.headings_upto(n - 1);
            let block = self.blocks.blocks[n - 1];
            match heading_of(self.block_source(block)) {
                Some((level, title)) if block.kind == BlockKind::Heading => before.push(
                    HeadingView { line: block.start_line, level, title },
                ),
                _ => before,
            }
        }
    }

    /// The headings of the document.
    pub open spec fn headings(self) -> Seq<HeadingView> {
        self.headings_upto(self.blocks.blocks.len() as int)
    }
}

/// The scores of headings for a query.
pub open spec fn heading_scores(headings: Seq<HeadingView>, query: Seq<char>) -> Seq<Option<i32>> {
    headings.map_values(|h: HeadingView| score_of(h.title, query))
}

/// The lines of headings.
pub open spec fn heading_lines(headings: Seq<HeadingView>) -> Seq<usize> {
    headings.map_values(|h: HeadingView| h.line)
}

/// The headings that match a query, by their places: all of them in order for an empty
/// one, else the best first, and those that match equally in the order of their lines.
pub open spec fn outline_matches(headings: Seq<HeadingView>, query: Seq<char>) -> Seq<int> {
    if query.len() == 0 {
        Seq::new(headings.len(), |i: int| i)
    } else {
        ranking(
            heading_scores(headings, query),
            heading_lines(headings),
            headings.len() as int,
        )
    }
}

/// The headings that match a query.
pub fn match_headings(headings: &Vec<Heading>, query: &str) -> (out: Vec<usize>)
    ensures
        entries(out@) == outline_matches(heading_views(headings@), query@),
        forall|i: int| 0 <= i < out@.len() ==> (#[trigger] out@[i]) < headings@.len(),
{
    let ghost v = heading_views(headings@);
    let mut scores: Vec<Option<i32>> = Vec::new();
    let mut lines: Vec<usize> = Vec::new();
    let mut all: Vec<usize> = Vec::new();
    let mut i: usize = 0;
    while i < headings.len()
        invariant
            i <= headings@.len(),
            v == heading_views(headings@),
            scores@.len() == i,
            lines@.len() == i,
            all@.len() == i,
            forall|k: int| 0 <= k < i ==> #[trigger] scores@[k] == score_of(v[k].title, query@),
            forall|k: int| 0 <= k < i ==> #[trigger] lines@[k] == v[k].line,
            forall|k: int| 0 <= k < i ==> #[trigger] all@[k] == k,
        decreases headings@.len() - i,
    {
        assert(v[i as int] == headings@[i as int]@);
        scores.push(fuzzy_score(headings[i].title.as_str(), query));
        lines.push(headings[i].line);
        all.push(i);
        i += 1;
    }
    if query.is_empty() {
        assert(entries(all@) =~= outline_matches(v, query@));
        return all;
    }
    assert(scores@ =~= heading_scores(v, query@));
    assert(lines@ =~= heading_lines(v));
    rank(&scores, &lines)
}

/// The line of the last of the first `n` headings at or before a line.
pub open spec fn heading_above(headings: Seq<HeadingView>, line: int, n: int) -> Option<usize>
    decreases n,
{
    if n <= 0 {
        None
    } else if headings[n - 1].line <= line {
        Some(headings[n - 1].line)
    } else {
        heading_above(headings, line, n - 1)
    }
}

/// The lines of the outline.
pub open spec fn outline_lines(
    headings: Seq<HeadingView>,
    query: Seq<char>,
    selected: usize,
    cursor_line: int,
) -> Seq<OutlineItemView> {
    let m = outline_matches(headings, query);
    let current = heading_above(headings, cursor_line, headings.len() as int);
    Seq::new(
        m.len(),
        |i: int|
            OutlineItemView {
                line: headings[m[i]].line,
                level: headings[m[i]].level,
                title: headings[m[i]].title,
                selected: i == selected,
                current: current == Some(headings[m[i]].line),
            },
    )
}

/// What the lines of the outline say.
pub open spec fn outline_views(items: Seq<OutlineItem>) -> Seq<OutlineItemView> {
    items.map_values(|i: OutlineItem| i@)
}

/// The lines of the outline.
pub fn list_outline(
    headings: &Vec<Heading>,
    query: &str,
    selected: usize,
    cursor_line: usize,
) -> (items: Vec<OutlineItem>)
    ensures
        outline_views(items@) == outline_lines(
            heading_views(headings@),
            query@,
            selected,
            cursor_line as int,
        ),
{
    let ghost v = heading_views(headings@);
    let m = match_headings(headings, query);
    let ghost e = entries(m@);
    let mut current: Option<usize> = None;
    let mut n: usize = headings.len();
    let ghost goal = heading_above(v, cursor_line as int, v.len() as int);
    while n > 0 && current.is_none()
        invariant
            n <= headings@.len(),
            v == heading_views(headings@),
            current is None ==> goal == heading_above(v, cursor_line as int, n as int),
            current is Some ==> goal == current,
        decreases
                n,
                if current is None {
                    1int
                } else {
                    0int
                },
    {
        assert(v[n - 1] == headings@[n - 1]@);
        if headings[n - 1].line <= cursor_line {
            current = Some(headings[n - 1].line);
        } else {
            n -= 1;
        }
    }
    let mut items: Vec<OutlineItem> = Vec::new();
    let mut i: usize = 0;
    assert(e.len() == m@.len());
    while i < m.len()
        invariant
            i <= m@.len(),
            v == heading_views(headings@),
            e == entries(m@),
            e.len() == m@.len(),
            e == outline_matches(v, query@),
            forall|k: int| 0 <= k < m@.len() ==> (#[trigger] m@[k]) < headings@.len(),
            current == heading_above(v, cursor_line as int, v.len() as int),
            items@.len() == i,
            forall|k: int|
                0 <= k < i ==> (#[trigger] items@[k])@ == outline_lines(
                    v,
                    query@,
                    selected,
                    cursor_line as int,
                )[k],
        decreases m@.len() - i,
    {
        let at: usize = m[i];
        assert(e[i as int] == at);
        assert(v[at as int] == headings@[at as int]@);
        let h = &headings[at];
        items.push(
            OutlineItem {
                line: h.line,
                level: h.level,
                title: h.title.clone(),
                selected: i == selected,
                current: match current {
                    Some(line) => line == h.line,
                    None => false,
                },
            },
        );
        i += 1;
    }
    assert(outline_views(items@) =~= outline_lines(v, query@, selected, cursor_line as int));
    items
}

impl Editor {
    /// The headings of the document.
    pub fn headings(&mut self) -> (out: Vec<Heading>)
        requires
            old(self).wf(),
        ensures
            final(self).wf(),
            final(self)@ == old(self)@.with_blocks(),
            heading_views(out@) == final(self)@.headings(),
    {
        let mut blocks: Vec<SourceBlock> = Vec::new();
        {
            let index = self.current_blocks();
            let all = index.blocks();
            let mut i: usize = 0;
            while i < all.len()
                invariant
                    i <= all@.len(),
                    blocks@ == all@.take(i as int),
                decreases all@.len() - i,
            {
                blocks.push(all[i]);
                i += 1;
                assert(all@.take(i as int) =~= all@.take(i - 1).push(all@[i - 1]));
            }
            assert(all@.take(i as int) =~= all@);
        }
        let ghost v = self@;
        assert(blocks@ == v.blocks.blocks);
        let total: usize = self.line_count();
        let mut out: Vec<Heading> = Vec::new();
        let mut i: usize = 0;
        assert(heading_views(out@) =~= v.headings_upto(0));
        while i < blocks.len()
            invariant
                i <= blocks@.len(),
                self@ == v,
                blocks@ == v.blocks.blocks,
                total == line_count(v.bytes()),
                heading_views(out@) == v.headings_upto(i as int),
            decreases blocks@.len() - i,
        {
            let block = blocks[i];
            let ghost before = heading_views(out@);
            let first: usize = if block.start_line < total {
                block.start_line
            } else {
                total
            };
            let last: usize = if block.end_line < total {
                block.end_line + 1
            } else {
                total
            };
            let from: usize = self.line_begin(first);
            let to: usize = self.line_begin(last);
            let source = if from <= to {
                self.slice(from, to)
            } else {
                String::new()
            };
            assert(source@ =~= v.block_source(block));
            if block.kind == BlockKind::Heading {
                if let Some((level, title)) = parse_heading(source.as_str()) {
                    let h = Heading { line: block.start_line, level, title };
                    let ghost added = h@;
                    out.push(h);
                    assert(heading_views(out@) =~= before.push(added));
                }
            }
            i += 1;
        }
        out
    }
}

/// The heading that a line is under is the last one at the line or above it.
pub proof fn lemma_the_heading_above(headings: Seq<HeadingView>, line: int, n: int)
    requires
        0 <= n <= headings.len(),
    ensures
        match heading_above(headings, line, n) {
            Some(at) => exists|i: int|
                0 <= i < n && (#[trigger] headings[i]).line == at && at <= line && forall|j: int|
                    i < j < n ==> (#[trigger] headings[j]).line > line,
            None => forall|i: int| 0 <= i < n ==> (#[trigger] headings[i]).line > line,
        },
    decreases n,
{
    if n > 0 {
        if headings[n - 1].line > line {
            lemma_the_heading_above(headings, line, n - 1);
        } else {
            assert(headings[n - 1].line == headings[n - 1].line);
        }
    }
}

/// A line of one to six hashes, a space and a title is a heading of that level with that title.
#[verifier::spinoff_prover]
pub proof fn lemma_hashes_make_a_heading(level: int, title: Seq<char>, source: Seq<char>)
    requires
        1 <= level <= 6,
        title.len() > 0,
        !white_space(title[0]),
        !white_space(title.last()),
        title.last() != '#',
        lines_from(source, 0).len() > 0,
        lines_from(source, 0)[0] == repeated('#', level) + seq![' '] + title,
    ensures
        heading_of(source) == Some((level as usize, title)),
{
    let line = repeated('#', level) + seq![' '] + title;
    assert(line[0] == '#' && line.last() == title.last());
    lemma_trimmed_is_kept(line);
    assert forall|j: int| 0 <= j < level implies #[trigger] line[j] == '#' by {}
    assert(line[level] == ' ');
    lemma_run_stops(line, 0, level, '#');
    let rest = line.skip(level);
    assert(rest[0] == ' ');
    assert(rest.skip(1) =~= title);
    assert(trim_start(rest) == trim_start(rest.skip(1)));
    assert(trim_start(title) == title);
    lemma_trimmed_is_kept(title);
    assert(trimmed(rest) == title);
    assert(strip_end(title, '#') == title);
}

/// A line over a line of `=` is a heading of the first level, and one over a line of `-` of the
/// second.
pub proof fn lemma_underlines_make_a_heading(title: Seq<char>, under: Seq<char>, source: Seq<char>)
    requires
        title.len() > 0,
        !white_space(title[0]),
        !white_space(title.last()),
        title[0] != '#',
        under.len() > 0,
        under[0] == '=' || under[0] == '-',
        under.last() == under[0],
        lines_from(source, 0).len() >= 2,
        lines_from(source, 0)[0] == title,
        lines_from(source, 0)[1] == under,
    ensures
        heading_of(source) == Some(
            (
                if under[0] == '=' {
                    1usize
                } else {
                    2usize
                },
                title,
            ),
        ),
{
    lemma_trimmed_is_kept(title);
    lemma_trimmed_is_kept(under);
    lemma_run_stops(title, 0, 0, '#');
}

} // verus!
