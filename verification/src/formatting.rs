//! Formatting commands: inline markers, links, line prefixes and headings.

use vstd::prelude::*;
use vstd::utf8::*;

use crate::editor::{Editor, EditorView};
use crate::fence::{run_end, run_stop};
use crate::line_index::least;
use crate::list_marker::{
    checkbox_end, lemma_spaces_end, lemma_spaces_stop, list_space, marker_of, parse_list_marker,
    skip_spaces, spaces_end, task_checkbox_end, ListMarkerKind,
};
use crate::rope::{lemma_line_of, line_count};
use crate::strings::{
    ascii_space, byte_len, byte_length, from_chars, is_ascii_space, joined, lead_length, matches_at,
    occurs_at, push_repeated, repeated, to_chars, trim_eol, trim_start, white_space,
    without_eol,
};

verus! {

/// Text between two markers without them, and other text between two of them.
pub open spec fn marks_toggled(text: Seq<char>, marker: Seq<char>) -> Seq<char> {
    let n = text.len() as int;
    let m = marker.len() as int;
    if n >= 2 * m && occurs_at(text, marker, 0) && occurs_at(text, marker, n - m) {
        text.subrange(m, n - m)
    } else {
        marker + text + marker
    }
}

/// Taking markers off undoes putting them on.
pub proof fn lemma_marks_toggle_back(text: Seq<char>, marker: Seq<char>)
    requires
        marks_toggled(text, marker) == marker + text + marker,
    ensures
        marks_toggled(marks_toggled(text, marker), marker) == text,
{
    let all = marker + text + marker;
    let m = marker.len() as int;
    let n = all.len() as int;
    assert(all.subrange(0, m) =~= marker);
    assert(all.subrange(n - m, n) =~= marker);
    assert(all.subrange(m, n - m) =~= text);
}

/// A line with a prefix after its indentation, or without it where it stands there.
pub open spec fn prefix_toggled(line: Seq<char>, prefix: Seq<char>) -> Seq<char> {
    let i = spaces_end(line, 0);
    let rest = line.skip(i);
    if occurs_at(rest, prefix, 0) {
        line.take(i) + rest.skip(prefix.len() as int)
    } else {
        line.take(i) + prefix + rest
    }
}

/// Taking a prefix off undoes putting it on.
pub proof fn lemma_prefix_toggles_back(line: Seq<char>, prefix: Seq<char>)
    requires
        prefix.len() > 0,
        !list_space(prefix[0]),
        !occurs_at(line.skip(spaces_end(line, 0)), prefix, 0),
    ensures
        prefix_toggled(prefix_toggled(line, prefix), prefix) == line,
{
    let i = spaces_end(line, 0);
    lemma_spaces_end(line, 0);
    let on = prefix_toggled(line, prefix);
    assert(on[i] == prefix[0]);
    assert forall|j: int| 0 <= j < i implies list_space(#[trigger] on[j]) by {
        assert(on[j] == line[j]);
    }
    lemma_spaces_stop(on, 0, i);
    assert(on.skip(i).subrange(0, prefix.len() as int) =~= prefix);
    assert(on.take(i) + on.skip(i).skip(prefix.len() as int) =~= line);
}

/// A line as a heading one level further down; no heading after the sixth.
pub open spec fn heading_cycled(line: Seq<char>) -> Seq<char> {
    let i = spaces_end(line, 0);
    let rest = line.skip(i);
    let hashes = run_end(rest, 0, '#');
    let heading = 1 <= hashes <= 6 && hashes < rest.len() && ascii_space(rest[hashes]);
    let text = if heading {
        trim_start(rest.skip(hashes))
    } else {
        rest
    };
    if heading && hashes == 6 {
        line.take(i) + text
    } else {
        line.take(i) + repeated(
            '#',
            if heading {
                hashes + 1
            } else {
                1
            },
        ).push(' ') + text
    }
}

/// A line as a heading of a level, and as none for level 0.
pub open spec fn heading_line(indent: Seq<char>, level: int, text: Seq<char>) -> Seq<char> {
    if level == 0 {
        indent + text
    } else {
        indent + repeated('#', level).push(' ') + text
    }
}

/// A run ends at the first character that is another.
pub(crate) proof fn lemma_run_stops(s: Seq<char>, i: int, e: int, c: char)
    requires
        0 <= i <= e <= s.len(),
        forall|j: int| i <= j < e ==> #[trigger] s[j] == c,
        e == s.len() || s[e] != c,
    ensures
        run_end(s, i, c) == e,
    decreases e - i,
{
    if i < e {
        lemma_run_stops(s, i + 1, e, c);
    }
}

/// Cycling the heading goes through the six levels and back to the line that it was.
pub proof fn lemma_headings_cycle(indent: Seq<char>, level: int, text: Seq<char>)
    requires
        forall|j: int| 0 <= j < indent.len() ==> list_space(#[trigger] indent[j]),
        text.len() > 0,
        !white_space(text[0]),
        text[0] != '#',
        0 <= level <= 6,
    ensures
        heading_cycled(heading_line(indent, level, text)) == heading_line(
            indent,
            if level == 6 {
                0
            } else {
                level + 1
            },
            text,
        ),
{
    let line = heading_line(indent, level, text);
    let i = indent.len() as int;
    assert forall|j: int| 0 <= j < i implies list_space(#[trigger] line[j]) by {
        assert(line[j] == indent[j]);
    }
    assert(line[i] == if level == 0 {
        text[0]
    } else {
        '#'
    });
    lemma_spaces_stop(line, 0, i);
    let rest = line.skip(i);
    assert(line.take(i) =~= indent);
    if level == 0 {
        assert(rest =~= text);
        lemma_run_stops(rest, 0, 0, '#');
        assert(heading_cycled(line) =~= heading_line(indent, 1, text));
    } else {
        assert forall|j: int| 0 <= j < level implies #[trigger] rest[j] == '#' by {
            assert(rest[j] == line[i + j]);
        }
        assert(rest[level] == ' ');
        lemma_run_stops(rest, 0, level, '#');
        let after = rest.skip(level);
        assert(after[0] == ' ');
        assert(after.skip(1) =~= text);
        assert(trim_start(after) == trim_start(text));
        assert(trim_start(text) == text);
    }
}

/// A line with the checkbox of its list item toggled. An item without one becomes a task,
/// and so does a line that is no item.
pub open spec fn task_toggled(line: Seq<char>) -> Seq<char> {
    match marker_of(line) {
        Some(m) => {
            let e = if m.kind is Task {
                (m.indent.len() + 1 + m.spacing.len()) as int
            } else {
                m.prefix_len
            };
            if checkbox_end(line, e) is Some {
                line.update(
                    e + 1,
                    if line[e + 1] == ' ' {
                        'x'
                    } else {
                        ' '
                    },
                )
            } else {
                line.take(e) + "[ ] "@ + line.skip(e)
            }
        },
        None => {
            let i = spaces_end(line, 0);
            line.take(i) + "- [ ] "@ + line.skip(i)
        },
    }
}

impl EditorView {
    /// The editor after an inline marker was put around the selection, or taken off it;
    /// without one, the cursor goes between a pair of markers.
    #[verifier::opaque]
    pub open spec fn inline_toggled(self, marker: Seq<char>) -> EditorView {
        let v = self.run_ended();
        match self.selection() {
            Some((s, e)) => v.replaced(
                s as int,
                e as int,
                marks_toggled(self.slice(s as int, e as int), marker),
                None,
            ).run_ended(),
            None => v.replaced(
                self.cursor.byte as int,
                self.cursor.byte as int,
                marker + marker,
                Some((self.cursor.byte as usize).saturating_add(byte_len(marker) as usize)),
            ).run_ended(),
        }
    }

    /// The editor after a link was made of the selection, with the cursor where its target
    /// goes, or an empty one was inserted.
    #[verifier::opaque]
    pub open spec fn link_inserted(self) -> EditorView {
        let v = self.run_ended();
        match self.selection() {
            Some((s, e)) => {
                let text = "["@ + self.slice(s as int, e as int) + "]()"@;
                v.replaced(
                    s as int,
                    e as int,
                    text,
                    Some(s.saturating_add(byte_len(text) as usize).saturating_sub(1)),
                ).run_ended()
            },
            None => v.replaced(
                self.cursor.byte as int,
                self.cursor.byte as int,
                "[]()"@,
                Some(self.cursor.byte.saturating_add(1)),
            ).run_ended(),
        }
    }

    /// The editor with the cursor's line replaced; the cursor keeps its distance from the
    /// beginning of the line, within it.
    pub open spec fn line_replaced(self, body: Seq<char>) -> EditorView {
        let line = self.cursor_line();
        let (start, end) = self.line_range(line);
        let text = body + self.ending(line);
        self.run_ended().replaced(
            start,
            end,
            text,
            Some(
                (start as usize).saturating_add(
                    least(self.cursor.byte - start, byte_len(without_eol(text)) as int) as usize,
                ),
            ),
        ).run_ended()
    }

    /// The editor after a prefix of the cursor's line was toggled.
    #[verifier::opaque]
    pub open spec fn line_prefix_toggled(self, prefix: Seq<char>) -> EditorView {
        self.line_replaced(prefix_toggled(self.content(self.cursor_line()), prefix))
    }

    /// The editor after the checkbox of the cursor's line was toggled.
    #[verifier::opaque]
    pub open spec fn line_task_toggled(self) -> EditorView {
        self.line_replaced(task_toggled(self.content(self.cursor_line())))
    }

    /// The editor after the heading level of the cursor's line was cycled.
    #[verifier::opaque]
    pub open spec fn line_heading_cycled(self) -> EditorView {
        self.line_replaced(heading_cycled(self.content(self.cursor_line())))
    }
}

/// Put markers around a text, or take them off.
pub fn toggle_marks(text: &str, marker: &str) -> (out: String)
    ensures
        out@ == marks_toggled(text@, marker@),
{
    let t = to_chars(text);
    let k = to_chars(marker);
    let n: usize = t.len();
    let m: usize = k.len();
    if m <= n && n - m >= m && matches_at(&t, &k, 0) && matches_at(&t, &k, n - m) {
        return from_chars(&t, m, n - m);
    }
    let inner = joined(marker, text);
    joined(inner.as_str(), marker)
}

/// Toggle a prefix after the indentation of a line.
pub fn toggle_prefix(line: &str, prefix: &str) -> (out: String)
    ensures
        out@ == prefix_toggled(line@, prefix@),
{
    let chars = to_chars(line);
    let i: usize = skip_spaces(&chars, 0);
    let indent = from_chars(&chars, 0, i);
    let rest = from_chars(&chars, i, chars.len());
    assert(indent@ =~= line@.take(i as int));
    assert(rest@ =~= line@.skip(i as int));
    let r = to_chars(rest.as_str());
    let p = to_chars(prefix);
    if matches_at(&r, &p, 0) {
        let after = from_chars(&r, p.len(), r.len());
        assert(after@ =~= rest@.skip(prefix@.len() as int));
        return joined(indent.as_str(), after.as_str());
    }
    let head = joined(indent.as_str(), prefix);
    joined(head.as_str(), rest.as_str())
}

/// A line as a heading one level further down.
pub fn next_heading(line: &str) -> (out: String)
    ensures
        out@ == heading_cycled(line@),
{
    let chars = to_chars(line);
    let i: usize = skip_spaces(&chars, 0);
    let indent = from_chars(&chars, 0, i);
    let rest = from_chars(&chars, i, chars.len());
    assert(indent@ =~= line@.take(i as int));
    assert(rest@ =~= line@.skip(i as int));
    let r = to_chars(rest.as_str());
    let hashes: usize = run_stop(&r, 0, '#');
    let heading = 1 <= hashes && hashes <= 6 && hashes < r.len() && is_ascii_space(r[hashes]);
    let text = if heading {
        let tail = from_chars(&r, hashes, r.len());
        assert(tail@ =~= rest@.skip(hashes as int));
        let t = to_chars(tail.as_str());
        let a: usize = lead_length(&t);
        assert(t@.subrange(a as int, t@.len() as int) =~= t@.skip(a as int));
        from_chars(&t, a, t.len())
    } else {
        rest
    };
    if heading && hashes == 6 {
        return joined(indent.as_str(), text.as_str());
    }
    let level: usize = if heading {
        hashes + 1
    } else {
        1
    };
    let mut out = indent;
    push_repeated(&mut out, '#', level);
    out.push(' ');
    out.append(text.as_str());
    assert(out@ =~= heading_cycled(line@));
    out
}

/// Toggle the checkbox of a list item.
pub fn toggle_checkbox(line: &str) -> (out: String)
    ensures
        out@ == task_toggled(line@),
{
    let mut chars = to_chars(line);
    let m = match parse_list_marker(line) {
        Some(m) => m,
        None => {
            let i: usize = skip_spaces(&chars, 0);
            let mut out = from_chars(&chars, 0, i);
            out.append("- [ ] ");
            let rest = from_chars(&chars, i, chars.len());
            out.append(rest.as_str());
            assert(out@ =~= task_toggled(line@));
            return out;
        },
    };
    proof {
        lemma_marker_parts(line@);
    }
    let e: usize = match m.kind {
        ListMarkerKind::Task(_) => {
            let indent = to_chars(m.indent.as_str());
            let spacing = to_chars(m.spacing.as_str());
            let all: usize = chars.len();
            indent.len() + 1 + spacing.len()
        },
        _ => m.prefix_len,
    };
    if task_checkbox_end(&chars, e).is_some() {
        let mark = if chars[e + 1] == ' ' {
            'x'
        } else {
            ' '
        };
        chars.set(e + 1, mark);
        let out = from_chars(&chars, 0, chars.len());
        assert(out@ =~= task_toggled(line@));
        return out;
    }
    let mut out = from_chars(&chars, 0, e);
    out.append("[ ] ");
    let rest = from_chars(&chars, e, chars.len());
    out.append(rest.as_str());
    assert(out@ =~= task_toggled(line@));
    out
}

proof fn lemma_marker_parts(s: Seq<char>)
    requires
        marker_of(s) is Some,
    ensures
        (marker_of(s)->0).prefix_len <= s.len(),
        (marker_of(s)->0).kind is Task ==> (marker_of(s)->0).indent.len() + 1 + (marker_of(
            s,
        )->0).spacing.len() <= s.len(),
{
    crate::list_marker::lemma_marker_is_ascii(s);
    let m = spaces_end(s, 0);
    lemma_spaces_end(s, 0);
    if m + 1 < s.len() {
        lemma_spaces_end(s, m + 2);
    }
}

/// Toggling a task twice restores it.
pub proof fn lemma_task_toggles_back(s: Seq<char>)
    requires
        marker_of(s) is Some,
        (marker_of(s)->0).kind is Task,
        s[((marker_of(s)->0).indent.len() + (marker_of(s)->0).spacing.len() + 2) as int] != 'X',
    ensures
        task_toggled(task_toggled(s)) == s,
{
    let t = task_toggled(s);
    let m = spaces_end(s, 0);
    lemma_spaces_end(s, 0);
    let e = spaces_end(s, m + 2);
    lemma_spaces_end(s, m + 2);
    lemma_same_spaces(s, t, 0, e + 1);
    lemma_same_spaces(s, t, m + 2, e + 1);
    assert(t[e] == '[' && t[e + 2] == ']');
    assert(checkbox_end(t, e) is Some);
    assert(task_toggled(t) =~= s);
}

proof fn lemma_same_spaces(s: Seq<char>, t: Seq<char>, i: int, n: int)
    requires
        s.len() == t.len(),
        0 <= i <= n <= s.len(),
        forall|k: int| 0 <= k < n ==> #[trigger] s[k] == t[k],
        spaces_end(s, i) < n,
    ensures
        spaces_end(t, i) == spaces_end(s, i),
    decreases n - i,
{
    if i < s.len() && list_space(s[i]) {
        lemma_spaces_end(s, i + 1);
        assert(s[i] == t[i]);
        lemma_same_spaces(s, t, i + 1, n);
    } else {
        assert(i < n);
        assert(s[i] == t[i]);
    }
}

impl Editor {
    pub fn toggle_inline(&mut self, marker: &str)
        requires
            old(self).wf(),
        ensures
            final(self).wf(),
            final(self)@ == old(self)@.inline_toggled(marker@),
    {
        proof {
            reveal(EditorView::inline_toggled);
        }
        proof {
            self.lemma_ok();
        }
        self.break_run();
        if let Some((s, e)) = self.selection_range() {
            let selected = self.slice(s, e);
            let text = toggle_marks(selected.as_str(), marker);
            self.replace_range(s, e, text.as_str());
        } else {
            let at: usize = self.cursor().byte;
            let pair = joined(marker, marker);
            let inside: usize = at.saturating_add(byte_length(marker));
            self.replace_range_with_cursor(at, at, pair.as_str(), Some(inside));
        }
        self.break_run();
    }

    pub fn insert_link(&mut self)
        requires
            old(self).wf(),
        ensures
            final(self).wf(),
            final(self)@ == old(self)@.link_inserted(),
    {
        proof {
            reveal(EditorView::link_inserted);
        }
        proof {
            self.lemma_ok();
        }
        self.break_run();
        if let Some((s, e)) = self.selection_range() {
            let label = self.slice(s, e);
            let open = joined("[", label.as_str());
            let text = joined(open.as_str(), "]()");
            let cursor: usize = s.saturating_add(byte_length(text.as_str())).saturating_sub(1);
            self.replace_range_with_cursor(s, e, text.as_str(), Some(cursor));
        } else {
            let at: usize = self.cursor().byte;
            self.replace_range_with_cursor(at, at, "[]()", Some(at.saturating_add(1)));
        }
        self.break_run();
    }

    /// Replace the cursor's line.
    fn replace_line(&mut self, line: usize, body: &str)
        requires
            old(self).wf(),
            line == old(self)@.cursor_line(),
            line < line_count(old(self)@.bytes()),
        ensures
            final(self).wf(),
            final(self)@ == old(self)@.line_replaced(body@),
    {
        proof {
            self.lemma_ok();
            lemma_line_of(self@.bytes(), self@.cursor.byte as int);
        }
        let (start, end) = self.line_range(line);
        let (_content, ending) = self.split_line(line);
        let text = joined(body, ending.as_str());
        let kept = trim_eol(text.as_str());
        let room: usize = byte_length(kept.as_str());
        let col: usize = self.cursor().byte - start;
        let cursor: usize = start.saturating_add(
            if col <= room {
                col
            } else {
                room
            },
        );
        self.break_run();
        self.replace_range_with_cursor(start, end, text.as_str(), Some(cursor));
        self.break_run();
    }

    pub fn toggle_line_prefix(&mut self, prefix: &str)
        requires
            old(self).wf(),
        ensures
            final(self).wf(),
            final(self)@ == old(self)@.line_prefix_toggled(prefix@),
    {
        proof {
            reveal(EditorView::line_prefix_toggled);
        }
        let line: usize = self.cursor_line();
        let content = self.line_without_eol(line);
        let body = toggle_prefix(content.as_str(), prefix);
        self.replace_line(line, body.as_str());
    }

    pub fn toggle_task(&mut self)
        requires
            old(self).wf(),
        ensures
            final(self).wf(),
            final(self)@ == old(self)@.line_task_toggled(),
    {
        proof {
            reveal(EditorView::line_task_toggled);
        }
        let line: usize = self.cursor_line();
        let content = self.line_without_eol(line);
        let body = toggle_checkbox(content.as_str());
        self.replace_line(line, body.as_str());
    }

    pub fn cycle_heading(&mut self)
        requires
            old(self).wf(),
        ensures
            final(self).wf(),
            final(self)@ == old(self)@.line_heading_cycled(),
    {
        proof {
            reveal(EditorView::line_heading_cycled);
        }
        let line: usize = self.cursor_line();
        let content = self.line_without_eol(line);
        let body = next_heading(content.as_str());
        self.replace_line(line, body.as_str());
    }
}

} // verus!
