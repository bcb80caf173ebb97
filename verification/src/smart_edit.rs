//! Typing that knows Markdown: pairs of delimiters, list items, numbered lists.

use vstd::prelude::*;
use vstd::string::*;
use vstd::utf8::*;

use crate::bytes::boundary;
use crate::editor::{floor_boundary, Editor, EditorView, Motion};
use crate::fence::{fence_after, step_fence};
use crate::line_index::least;
use crate::line_input::lemma_one_char;
use crate::list_marker::{
    bare_marker, indentation, is_bare_marker, leading_indent, lemma_marker_is_ascii,
    is_list_space, lemma_number_reads_back, list_space, marker_of, parse_list_marker,
    ListMarkerKind,
};
use crate::matches::{is_word_char, word_char};
use crate::markdown::ast::{node_end, node_views, parse, parsed, subtree_end, KindView, Node, NodeKind, NodeView};
use crate::rope::{
    lemma_line_of, lemma_line_starts_grow, line_count, line_start,
};
use crate::strings::{
    blank_from, byte_len, byte_length, contains_char, decimal, from_chars, has_char, push_number,
    to_chars, trimmed,
};

verus! {

/// What closes a pair that a character opens.
pub open spec fn closer_of(c: char) -> Option<char> {
    if c == '*' || c == '_' || c == '~' || c == '`' || c == '"' || c == '\'' {
        Some(c)
    } else if c == '(' {
        Some(')')
    } else if c == '[' {
        Some(']')
    } else if c == '{' {
        Some('}')
    } else if c == '<' {
        Some('>')
    } else {
        None
    }
}

/// Whether a character closes a pair.
pub open spec fn closes_pair(c: char) -> bool {
    c == '*' || c == '_' || c == '~' || c == '`' || c == ')' || c == ']' || c == '}' || c == '>' || c
        == '"' || c == '\''
}

/// What closes a pair that a character opens.
pub fn opening_pair(c: char) -> (close: Option<char>)
    ensures
        close == closer_of(c),
{
    match c {
        '*' => Some('*'),
        '_' => Some('_'),
        '~' => Some('~'),
        '`' => Some('`'),
        '(' => Some(')'),
        '[' => Some(']'),
        '{' => Some('}'),
        '<' => Some('>'),
        '"' => Some('"'),
        '\'' => Some('\''),
        _ => None,
    }
}

/// Whether a character closes a pair.
pub fn is_closing_pair_char(c: char) -> (yes: bool)
    ensures
        yes == closes_pair(c),
{
    c == '*' || c == '_' || c == '~' || c == '`' || c == ')' || c == ']' || c == '}' || c == '>' || c
        == '"' || c == '\''
}

/// Whether a text ends, apart from spaces, like the left side of a comparison: in a word or
/// in something that closes.
pub open spec fn ends_operand(text: Seq<char>) -> bool
    decreases text.len(),
{
    if text.len() == 0 {
        false
    } else if list_space(text.last()) {
        ends_operand(text.drop_last())
    } else {
        word_char(text.last()) || closes_pair(text.last())
    }
}

/// Whether an opener typed after `before` on its line brings its closer. Where a `<` can
/// compare, it does; quotes and underscores inside a word belong to the word.
pub open spec fn brings_closer(c: char, before: Seq<char>) -> bool {
    &&& closer_of(c) is Some
    &&& c == '<' ==> !ends_operand(before)
    &&& (c == '\'' || c == '"' || c == '_') ==> before.len() == 0 || !word_char(before.last())
}

/// Whether a text ends like the left side of a comparison.
fn is_operand(text: &Vec<char>) -> (yes: bool)
    ensures
        yes == ends_operand(text@),
{
    let mut end: usize = text.len();
    assert(text@.take(end as int) =~= text@);
    while end > 0
        invariant
            end <= text@.len(),
            ends_operand(text@) == ends_operand(text@.take(end as int)),
        decreases end,
    {
        let c = text[end - 1];
        let ghost t = text@.take(end as int);
        assert(t.last() == c);
        assert(t.drop_last() =~= text@.take(end - 1));
        if !is_list_space(c) {
            return is_word_char(c) || is_closing_pair_char(c);
        }
        end -= 1;
    }
    false
}

/// Whether an opener typed after `before` on its line brings its closer.
pub fn pairs_after(c: char, before: &str) -> (yes: bool)
    ensures
        yes == brings_closer(c, before@),
{
    if opening_pair(c).is_none() {
        return false;
    }
    let text = to_chars(before);
    if c == '<' {
        !is_operand(&text)
    } else if c == '\'' || c == '"' || c == '_' {
        text.len() == 0 || !is_word_char(text[text.len() - 1])
    } else {
        true
    }
}

/// Every pair that can be opened can be closed.
pub proof fn lemma_pairs_close(c: char)
    ensures
        closer_of(c) is Some ==> closes_pair(closer_of(c)->0),
{
}

/// Whether a node is an ordered list that spans a line, counted from 0.
pub open spec fn ordered_at(n: NodeView, line: int) -> bool {
    (n.kind matches KindView::List { marks, start } && marks.ordered)
        && n.start_line.saturating_sub(1) <= line <= n.end_line.saturating_sub(1)
}

/// The last of the first `k` nodes that is an ordered list on the line: as a list comes
/// before the lists in it, the innermost.
pub open spec fn innermost_ordered(nodes: Seq<NodeView>, line: int, k: int) -> Option<int>
    decreases k,
{
    if k <= 0 {
        None
    } else if ordered_at(nodes[k - 1], line) {
        Some(k - 1)
    } else {
        innermost_ordered(nodes, line, k - 1)
    }
}

/// Whether node `j` is an item of the list at node `i` that begins on the line.
pub open spec fn item_at(nodes: Seq<NodeView>, i: int, line: int, j: int) -> bool {
    i < j < subtree_end(nodes, i, nodes.len() as int) && nodes[j].depth == nodes[i].depth + 1
        && nodes[j].start_line.saturating_sub(1) == line
}

/// Whether an item of the list at node `i` begins on the line.
pub open spec fn item_line(nodes: Seq<NodeView>, i: int, line: int) -> bool {
    exists|j: int| item_at(nodes, i, line, j)
}

impl EditorView {
    /// The fence that is open before a line.
    pub open spec fn fence_before(self, line: int) -> Option<(char, usize)>
        decreases line,
    {
        if line <= 0 {
            None
        } else {
            fence_after(self.fence_before(line - 1), self.content(line - 1))
        }
    }

    /// Whether a line sits inside an (unclosed) fenced code block, judged by the fence
    /// delimiters above it.
    pub open spec fn in_fenced_code(self, line: int) -> bool {
        self.fence_before(line) is Some
    }

    /// Whether a line is an item of an ordered list.
    pub open spec fn ordered_line(self, line: int) -> bool {
        0 <= line < line_count(self.bytes()) && marker_of(self.content(line)) is Some && (marker_of(
            self.content(line),
        )->0).ordered()
    }

    /// Whether the numbers of the list at node `i` reach a line: an item of it with a
    /// marker begins there.
    pub open spec fn numbered(self, nodes: Seq<NodeView>, i: int, line: int) -> bool {
        marker_of(self.content(line)) is Some && item_line(nodes, i, line)
    }

    /// The number of the item on a line, or of the next, where `start` is that of the
    /// first.
    pub open spec fn number_at(
        self,
        nodes: Seq<NodeView>,
        i: int,
        start: u64,
        first: int,
        line: int,
    ) -> u64
        decreases line - first,
    {
        if line <= first {
            start
        } else if self.numbered(nodes, i, line - 1) {
            self.number_at(nodes, i, start, first, line - 1).saturating_add(1)
        } else {
            self.number_at(nodes, i, start, first, line - 1)
        }
    }

    /// A line with the given number in place of its own, if it has one.
    pub open spec fn rebuilt(self, nodes: Seq<NodeView>, i: int, line: int, number: u64) -> Seq<
        char,
    > {
        let text = self.content(line);
        if self.numbered(nodes, i, line) {
            let m = marker_of(text)->0;
            let delimiter = match m.kind {
                ListMarkerKind::Ordered { number, delimiter } => delimiter,
                _ => '.',
            };
            (m.indent + decimal(number as nat)).push(delimiter) + m.spacing + text.skip(m.prefix_len)
        } else {
            text
        }
    }

    /// The lines `[first, line)` of a list, numbered from `start` on. Nothing follows the
    /// content of line `last`.
    pub open spec fn renumbered_lines(
        self,
        nodes: Seq<NodeView>,
        i: int,
        start: u64,
        first: int,
        last: int,
        line: int,
    ) -> Seq<char>
        decreases line - first,
    {
        if line <= first {
            Seq::empty()
        } else {
            let l = line - 1;
            let done = self.renumbered_lines(nodes, i, start, first, last, l);
            let text = done + self.rebuilt(
                nodes,
                i,
                l,
                self.number_at(nodes, i, start, first, l),
            );
            if l < last {
                text + self.ending(l)
            } else {
                text
            }
        }
    }

    /// Whether the item that begins on a line has another number than this.
    pub open spec fn misnumbered(self, nodes: Seq<NodeView>, i: int, line: int, number: u64) -> bool {
        self.numbered(nodes, i, line) && match (marker_of(self.content(line))->0).kind {
            ListMarkerKind::Ordered { number: own, delimiter } => own != number,
            _ => true,
        }
    }

    /// Whether numbering from `start` on changes the number of the item on a line.
    pub open spec fn renumbers(self, nodes: Seq<NodeView>, i: int, start: u64, first: int, line: int) -> bool {
        self.misnumbered(nodes, i, line, self.number_at(nodes, i, start, first, line))
    }

    /// Whether numbering from `start` on changes the number of any item.
    pub open spec fn list_changes(
        self,
        nodes: Seq<NodeView>,
        i: int,
        start: u64,
        first: int,
        last: int,
    ) -> bool {
        exists|l: int| first <= l <= last && self.renumbers(nodes, i, start, first, l)
    }

    /// Where the cursor goes when the lines from `first` on are renumbered: it stays at its
    /// distance from the end of its line.
    pub open spec fn renumbered_cursor(
        self,
        nodes: Seq<NodeView>,
        i: int,
        start: u64,
        first: int,
        last: int,
    ) -> usize {
        let b = self.bytes();
        let line = self.cursor_line();
        if first <= line <= last {
            let fresh = self.rebuilt(nodes, i, line, self.number_at(nodes, i, start, first, line));
            let col = (self.cursor.byte - line_start(b, line)) as usize;
            let moved = col.saturating_add(byte_len(fresh) as usize).saturating_sub(
                byte_len(self.content(line)) as usize,
            );
            (line_start(b, first) as usize).saturating_add(
                byte_len(self.renumbered_lines(nodes, i, start, first, last, line)) as usize,
            ).saturating_add(moved)
        } else {
            self.cursor.byte
        }
    }

    /// The editor with the lines `first` to `last` of a list numbered from `start` on, in a
    /// step of its own, if that changes any of them.
    pub open spec fn list_renumbered(
        self,
        nodes: Seq<NodeView>,
        i: int,
        start: u64,
        first: int,
        last: int,
    ) -> EditorView {
        if self.list_changes(nodes, i, start, first, last) {
            let text = self.renumbered_lines(nodes, i, start, first, last, last + 1);
            let v = self.run_ended().replaced(
                line_start(self.bytes(), first),
                self.content_stop(last),
                text,
                None,
            );
            let place = floor_boundary(
                v.bytes(),
                least(
                    self.renumbered_cursor(nodes, i, start, first, last) as int,
                    v.bytes().len() as int,
                ),
            );
            v.at(place).cursor_recorded().run_ended()
        } else {
            self
        }
    }

    /// The editor with the ordered list that the cursor is in numbered from its first
    /// number on, as the preview shows it, in a step of its own. Nothing changes for bullet
    /// lists, or where the numbers are sequential already.
    #[verifier::opaque]
    pub open spec fn renumbered(self) -> EditorView {
        let b = self.bytes();
        let total = line_count(b);
        let line = self.cursor_line();
        let near = self.ordered_line(line) || self.ordered_line(line - 1) || self.ordered_line(
            line + 1,
        );
        let nodes = parsed(self.doc.text);
        match innermost_ordered(nodes, line, nodes.len() as int) {
            Some(i) if near => {
                let start = match nodes[i].kind {
                    KindView::List { marks, start } => start as u64,
                    _ => 0,
                };
                let first = least(nodes[i].start_line.saturating_sub(1) as int, total - 1);
                let last = least(nodes[i].end_line.saturating_sub(1) as int, total - 1);
                self.list_renumbered(nodes, i, start, first, last)
            },
            _ => self,
        }
    }

    /// The editor after a list was left: the marker on the line is dropped, or, where line
    /// breaks are kept, replaced by a blank line.
    pub open spec fn list_left(self, line: int, indent: Seq<char>, hard_breaks: bool) -> EditorView {
        self.replaced(
            line_start(self.bytes(), line),
            self.content_stop(line),
            if hard_breaks {
                self.newline()
            } else {
                indent
            },
            None,
        )
    }

    /// The editor after Enter.
    #[verifier::opaque]
    pub open spec fn newline_entered(self, hard_breaks: bool) -> EditorView {
        let line = self.cursor_line();
        let start = line_start(self.bytes(), line);
        let text = self.content(line);
        if self.selection() is Some || self.in_fenced_code(line) {
            self.inserted(self.newline())
        } else {
            match marker_of(text) {
                Some(m) if self.cursor.byte >= start + m.prefix_len => {
                    let v = if trimmed(text.skip(m.prefix_len)).len() == 0 {
                        self.list_left(line, m.indent, hard_breaks)
                    } else {
                        self.inserted(self.newline() + m.continuation())
                    };
                    if m.ordered() {
                        v.renumbered()
                    } else {
                        v
                    }
                },
                _ => if self.cursor.byte >= self.content_stop(line) && bare_marker(text) {
                    self.list_left(line, indentation(text), hard_breaks)
                } else {
                    self.inserted(self.newline())
                },
            }
        }
    }

    /// The editor after a character was typed: a selection is put between a pair, a closer
    /// that stands there already is passed over, and an opener brings its closer.
    #[verifier::opaque]
    pub open spec fn typed(self, c: char) -> EditorView {
        match (self.selection(), closer_of(c)) {
            (Some((s, e)), Some(close)) => self.replaced(
                s as int,
                e as int,
                (seq![c] + self.slice(s as int, e as int)).push(close),
                None,
            ),
            (Some(_), None) => self.inserted(seq![c]),
            (None, close) => if closes_pair(c) && self.char_at_cursor() == Some(c) {
                self.moved(Motion::Right, false, 1)
            } else {
                match close {
                    Some(close) if brings_closer(c, self.line_before_cursor()) => self.replaced(
                        self.cursor.byte as int,
                        self.cursor.byte as int,
                        seq![c, close],
                        Some((self.cursor.byte + byte_len(seq![c])) as usize),
                    ),
                    _ => self.inserted(seq![c]),
                }
            },
        }
    }

    /// The editor after a deletion; one that crosses a line boundary may add or remove a
    /// list item.
    #[verifier::opaque]
    pub open spec fn removed(self, range: Option<(int, int)>) -> EditorView {
        match range {
            Some((s, e)) => {
                let v = self.replaced(s, e, Seq::empty(), None);
                if has_char(self.slice(s, e), '\n') {
                    v.renumbered()
                } else {
                    v
                }
            },
            None => self,
        }
    }
}

fn is_ordered_at(n: &Node, line: usize) -> (yes: bool)
    ensures
        yes == ordered_at(n@, line as int),
{
    match &n.kind {
        NodeKind::List { marks, start: _ } => marks.ordered && n.start_line.saturating_sub(1) <= line
            && line <= n.end_line.saturating_sub(1),
        _ => false,
    }
}

/// The innermost ordered list whose source lines contain `line` (0-based).
pub fn innermost_ordered_list(nodes: &Vec<Node>, line: usize) -> (found: Option<usize>)
    ensures
        match found {
            Some(i) => innermost_ordered(node_views(nodes@), line as int, nodes@.len() as int) == Some(
                i as int,
            ) && i < nodes@.len(),
            None => innermost_ordered(node_views(nodes@), line as int, nodes@.len() as int) is None,
        },
{
    let ghost v = node_views(nodes@);
    let mut k: usize = nodes.len();
    while k > 0
        invariant
            k <= nodes@.len(),
            v == node_views(nodes@),
            innermost_ordered(v, line as int, nodes@.len() as int) == innermost_ordered(
                v,
                line as int,
                k as int,
            ),
        decreases k,
    {
        assert(v[k - 1] == nodes@[k - 1]@);
        if is_ordered_at(&nodes[k - 1], line) {
            return Some(k - 1);
        }
        k -= 1;
    }
    None
}

fn begins_item(nodes: &Vec<Node>, i: usize, end: usize, line: usize) -> (yes: bool)
    requires
        i < nodes@.len(),
        end == subtree_end(node_views(nodes@), i as int, nodes@.len() as int),
        i < end <= nodes@.len(),
    ensures
        yes == item_line(node_views(nodes@), i as int, line as int),
{
    let ghost v = node_views(nodes@);
    let depth: usize = nodes[i].depth;
    let mut j: usize = i + 1;
    while j < end
        invariant
            i < j <= end <= nodes@.len(),
            v == node_views(nodes@),
            depth == v[i as int].depth,
            end == subtree_end(v, i as int, nodes@.len() as int),
            forall|k: int| i < k < j ==> !item_at(v, i as int, line as int, k),
        decreases end - j,
    {
        assert(v[j as int] == nodes@[j as int]@);
        if nodes[j].depth > 0 && nodes[j].depth - 1 == depth && nodes[j].start_line.saturating_sub(1)
            == line {
            assert(item_at(v, i as int, line as int, j as int));
            return true;
        }
        j += 1;
    }
    false
}

impl Editor {
    /// Whether `line` sits inside an (unclosed) fenced code block, judged by
    /// scanning the fence delimiters above it.
    pub fn in_fenced_code(&self, line: usize) -> (yes: bool)
        requires
            line <= line_count(self@.bytes()),
        ensures
            yes == self@.in_fenced_code(line as int),
    {
        let mut open: Option<(char, usize)> = None;
        let mut i: usize = 0;
        while i < line
            invariant
                i <= line <= line_count(self@.bytes()),
                open == self@.fence_before(i as int),
            decreases line - i,
        {
            let text = self.line_without_eol(i);
            open = step_fence(open, text.as_str());
            i += 1;
        }
        open.is_some()
    }

    fn is_ordered_line(&self, line: usize) -> (yes: bool)
        requires
            line < line_count(self@.bytes()),
        ensures
            yes == self@.ordered_line(line as int),
    {
        let text = self.line_without_eol(line);
        match parse_list_marker(text.as_str()) {
            Some(m) => m.is_ordered(),
            None => false,
        }
    }

    /// One line of a list, renumbered, with whether it has a number, and had another.
    fn rebuilt_line(&self, nodes: &Vec<Node>, i: usize, end: usize, line: usize, number: u64) -> (r: (
        String,
        bool,
        bool,
    ))
        requires
            line < line_count(self@.bytes()),
            i < nodes@.len(),
            end == subtree_end(node_views(nodes@), i as int, nodes@.len() as int),
            i < end <= nodes@.len(),
        ensures
            r.0@ == self@.rebuilt(node_views(nodes@), i as int, line as int, number),
            r.1 == self@.numbered(node_views(nodes@), i as int, line as int),
            r.2 == self@.misnumbered(node_views(nodes@), i as int, line as int, number),
    {
        let text = self.line_without_eol(line);
        if let Some(m) = parse_list_marker(text.as_str()) {
            if begins_item(nodes, i, end, line) {
                let delimiter = match m.kind {
                    ListMarkerKind::Ordered { number: _, delimiter } => delimiter,
                    _ => '.',
                };
                let changes = match m.kind {
                    ListMarkerKind::Ordered { number: own, delimiter: _ } => own != number,
                    _ => true,
                };
                proof {
                    lemma_marker_is_ascii(text@);
                }
                let chars = to_chars(text.as_str());
                let rest = from_chars(&chars, m.prefix_len, chars.len());
                assert(rest@ =~= text@.skip(m.prefix_len as int));
                let mut out = m.indent;
                push_number(&mut out, number);
                out.push(delimiter);
                out.append(m.spacing.as_str());
                out.append(rest.as_str());
                return (out, true, changes);
            }
        }
        (text, false, false)
    }

    /// Renumber the contiguous ordered-list run the cursor is in so the source
    /// numbers are sequential (matching the rendered preview). No-op for bullet
    /// lists, a single item, or a run that is already sequential.
    pub fn renumber_ordered_run(&mut self)
        requires
            old(self).wf(),
        ensures
            final(self).wf(),
            final(self)@ == old(self)@.renumbered(),
    {
        proof {
            reveal(EditorView::renumbered);
        }
        let total: usize = self.line_count();
        let line: usize = self.cursor_line();
        // Cheap pre-check: only do the full parse when on or next to an ordered
        // item, so ordinary edits elsewhere stay fast.
        let near = self.is_ordered_line(line) || (line > 0 && self.is_ordered_line(line - 1)) || (
        line + 1 < total && self.is_ordered_line(line + 1));
        if !near {
            return;
        }
        let source = self.text();
        let nodes = parse(source.as_str());
        let i: usize = match innermost_ordered_list(&nodes, line) {
            Some(i) => i,
            None => {
                return;
            },
        };
        let start: u64 = match &nodes[i].kind {
            NodeKind::List { marks: _, start } => *start as u64,
            _ => 0,
        };
        let first: usize = if nodes[i].start_line.saturating_sub(1) < total - 1 {
            nodes[i].start_line.saturating_sub(1)
        } else {
            total - 1
        };
        let last: usize = if nodes[i].end_line.saturating_sub(1) < total - 1 {
            nodes[i].end_line.saturating_sub(1)
        } else {
            total - 1
        };
        proof {
            let n = node_views(nodes@);
            assert(n[i as int] == nodes@[i as int]@);
            assert(n == parsed(self@.doc.text));
            assert(first == least(n[i as int].start_line.saturating_sub(1) as int, total - 1));
            assert(last == least(n[i as int].end_line.saturating_sub(1) as int, total - 1));
            assert(start == match n[i as int].kind {
                KindView::List { marks, start } => start as u64,
                _ => 0,
            });
        }
        self.renumber_lines(&nodes, i, start, first, last);
    }

    /// The lines of a list, renumbered, with the place of the cursor, and whether anything
    /// changed.
    fn renumbering(&self, nodes: &Vec<Node>, i: usize, start: u64, first: usize, last: usize) -> (r: (
        String,
        usize,
        bool,
    ))
        requires
            self.wf(),
            i < nodes@.len(),
            first < line_count(self@.bytes()),
            last < line_count(self@.bytes()),
        ensures
            r.2 == self@.list_changes(
                node_views(nodes@),
                i as int,
                start,
                first as int,
                last as int,
            ),
            r.2 ==> first <= last,
            r.2 ==> r.0@ == self@.renumbered_lines(
                node_views(nodes@),
                i as int,
                start,
                first as int,
                last as int,
                last + 1,
            ),
            r.2 ==> r.1 == self@.renumbered_cursor(
                node_views(nodes@),
                i as int,
                start,
                first as int,
                last as int,
            ),
    {
        let ghost v = self@;
        let ghost n = node_views(nodes@);
        let total: usize = self.line_count();
        let end: usize = node_end(nodes, i, nodes.len());
        let cursor_line: usize = self.cursor_line();
        proof {
            self.lemma_ok();
            lemma_line_of(v.bytes(), v.cursor.byte as int);
        }
        let cursor: usize = self.cursor().byte;
        let start_byte: usize = self.line_begin(first);
        let mut number: u64 = start;
        let mut out = String::new();
        let mut new_cursor: usize = cursor;
        let mut changed = false;
        let mut line: usize = first;
        while line <= last
            invariant
                self@ == v,
                v.ok(),
                n == node_views(nodes@),
                i < nodes@.len(),
                end == subtree_end(n, i as int, nodes@.len() as int),
                i < end <= nodes@.len(),
                total == line_count(v.bytes()),
                last < total,
                first <= line <= total,
                line <= last + 1 || line == first,
                cursor == v.cursor.byte,
                cursor_line == v.cursor_line(),
                cursor_line < total,
                line_start(v.bytes(), cursor_line as int) <= cursor,
                start_byte == line_start(v.bytes(), first as int),
                number == v.number_at(n, i as int, start, first as int, line as int),
                out@ == v.renumbered_lines(
                    n,
                    i as int,
                    start,
                    first as int,
                    last as int,
                    line as int,
                ),
                changed == (exists|l: int|
                    first <= l < line && v.renumbers(n, i as int, start, first as int, l)),
                new_cursor == (if first <= cursor_line < line {
                    v.renumbered_cursor(n, i as int, start, first as int, last as int)
                } else {
                    cursor
                }),
            decreases last + 1 - line,
        {
            let (text, ending) = self.split_line(line);
            let (fresh, numbered, changes) = self.rebuilt_line(nodes, i, end, line, number);
            if changes {
                changed = true;
                assert(v.renumbers(n, i as int, start, first as int, line as int));
            } else {
                assert(!v.renumbers(n, i as int, start, first as int, line as int));
            }
            if line == cursor_line {
                let begin: usize = self.line_begin(line);
                let col: usize = cursor - begin;
                let moved: usize = col.saturating_add(byte_length(fresh.as_str())).saturating_sub(
                    byte_length(text.as_str()),
                );
                new_cursor = start_byte.saturating_add(byte_length(out.as_str())).saturating_add(
                    moved,
                );
            }
            if numbered {
                number = number.saturating_add(1);
            }
            out.append(fresh.as_str());
            if line < last {
                out.append(ending.as_str());
            }
            line += 1;
        }
        (out, new_cursor, changed)
    }

    fn renumber_lines(&mut self, nodes: &Vec<Node>, i: usize, start: u64, first: usize, last: usize)
        requires
            old(self).wf(),
            i < nodes@.len(),
            first < line_count(old(self)@.bytes()),
            last < line_count(old(self)@.bytes()),
        ensures
            final(self).wf(),
            final(self)@ == old(self)@.list_renumbered(
                node_views(nodes@),
                i as int,
                start,
                first as int,
                last as int,
            ),
    {
        let (out, new_cursor, changed) = self.renumbering(nodes, i, start, first, last);
        if !changed {
            return;
        }
        let start_byte: usize = self.line_begin(first);
        let stop: usize = self.content_stop(last);
        proof {
            lemma_line_starts_grow(self@.bytes(), first as int, last as int);
        }
        self.break_run();
        self.replace_range(start_byte, stop, out.as_str());
        let place: usize = self.clamp_place(new_cursor);
        self.place_cursor(place);
        // Redo must land where the cursor actually ended up, not at the end
        // of the renumbered span that `replace_range` recorded.
        self.record_cursor();
        self.break_run();
    }

    fn exit_list(&mut self, line: usize, indent: &str, hard_breaks: bool)
        requires
            old(self).wf(),
            line < line_count(old(self)@.bytes()),
        ensures
            final(self).wf(),
            final(self)@ == old(self)@.list_left(line as int, indent@, hard_breaks),
    {
        let start: usize = self.line_begin(line);
        let stop: usize = self.content_stop(line);
        let text: &str = if hard_breaks {
            self.newline()
        } else {
            indent
        };
        self.replace_range(start, stop, text);
    }

    /// Enter: continue or leave a list, or begin a new line.
    pub fn insert_newline_smart(&mut self, hard_breaks: bool)
        requires
            old(self).wf(),
        ensures
            final(self).wf(),
            final(self)@ == old(self)@.newline_entered(hard_breaks),
    {
        proof {
            reveal(EditorView::newline_entered);
        }
        let nl = self.newline();
        if self.selection_range().is_some() {
            self.insert(nl);
            return;
        }
        let line: usize = self.cursor_line();
        // List handling is line-local, so a `- item` line *inside a fenced
        // code block* would otherwise grow markers it must not have.
        if self.in_fenced_code(line) {
            self.insert(nl);
            return;
        }
        let start: usize = self.line_begin(line);
        let text = self.line_without_eol(line);
        let cursor: usize = self.cursor().byte;
        proof {
            self.lemma_ok();
            lemma_line_of(self@.bytes(), cursor as int);
        }
        // A complete list/task/number marker with the cursor at or past it.
        if let Some(m) = parse_list_marker(text.as_str()) {
            proof {
                lemma_marker_is_ascii(text@);
            }
            if cursor - start >= m.prefix_len {
                let chars = to_chars(text.as_str());
                let ordered = m.is_ordered();
                if blank_from(&chars, m.prefix_len) {
                    // Empty item: Enter exits the list (matching Obsidian).
                    self.exit_list(line, m.indent.as_str(), hard_breaks);
                } else {
                    // Non-empty item: continue the list with a fresh marker. A
                    // task continues as an empty `- [ ] `, a number increments.
                    let mut next = String::new();
                    next.append(nl);
                    let continuation = m.continuation_prefix();
                    next.append(continuation.as_str());
                    assert(next@ =~= nl@ + continuation@);
                    self.insert(next.as_str());
                }
                if ordered {
                    // Keep the source numbers sequential (matching the preview).
                    self.renumber_ordered_run();
                }
                return;
            }
        }
        // A bare, space-less stub ("-", "*", "+", "2.") with the cursor at the
        // end: the user never started an item, so Enter just drops the stub.
        let stop: usize = self.content_stop(line);
        if cursor >= stop && is_bare_marker(text.as_str()) {
            let indent = leading_indent(text.as_str());
            self.exit_list(line, indent.as_str(), hard_breaks);
            return;
        }
        self.insert(nl);
    }

    /// Type a character.
    pub fn insert_char_smart(&mut self, c: char)
        requires
            old(self).wf(),
        ensures
            final(self).wf(),
            final(self)@ == old(self)@.typed(c),
    {
        proof {
            reveal(EditorView::typed);
        }
        proof {
            self.lemma_ok();
        }
        let mut one = String::new();
        one.push(c);
        assert(one@ =~= seq![c]);
        if let Some((s, e)) = self.selection_range() {
            if let Some(close) = opening_pair(c) {
                let selected = self.slice(s, e);
                let mut text = one;
                text.append(selected.as_str());
                text.push(close);
                assert(text@ =~= (seq![c] + selected@).push(close));
                self.replace_range(s, e, text.as_str());
                return;
            }
            // With a selection, a closing char must replace the selected text like any
            // other typed char.
            self.insert(one.as_str());
            return;
        }
        if is_closing_pair_char(c) && self.char_at_cursor() == Some(c) {
            self.do_motion(Motion::Right, false, 1);
            return;
        }
        let close = if pairs_after(c, self.line_before_cursor().as_str()) {
            opening_pair(c)
        } else {
            None
        };
        if let Some(close) = close {
            let at: usize = self.cursor().byte;
            let width: usize = byte_length(one.as_str());
            let mut pair = one;
            pair.push(close);
            assert(pair@ =~= seq![c, close]);
            proof {
                assert(self@.bytes().len() <= usize::MAX / 2);
                lemma_one_char(c);
            }
            self.replace_range_with_cursor(at, at, pair.as_str(), Some(at + width));
            return;
        }
        self.insert(one.as_str());
    }

    /// Delete the selection, or the cluster before the cursor.
    pub fn backspace(&mut self)
        requires
            old(self).wf(),
        ensures
            final(self).wf(),
            final(self)@ == old(self)@.removed(old(self)@.backspace_range()),
    {
        proof {
            reveal(EditorView::removed);
        }
        if let Some((s, e)) = self.backspace_range() {
            self.remove_range(s, e);
        }
    }

    /// Delete the selection, or the cluster after the cursor.
    pub fn delete_forward(&mut self)
        requires
            old(self).wf(),
        ensures
            final(self).wf(),
            final(self)@ == old(self)@.removed(old(self)@.delete_range()),
    {
        proof {
            reveal(EditorView::removed);
        }
        if let Some((s, e)) = self.delete_range() {
            self.remove_range(s, e);
        }
    }

    fn remove_range(&mut self, s: usize, e: usize)
        requires
            old(self).wf(),
            s <= e,
            boundary(old(self)@.bytes(), s as int),
            boundary(old(self)@.bytes(), e as int),
        ensures
            final(self).wf(),
            final(self)@ == old(self)@.removed(Some((s as int, e as int))),
    {
        proof {
            reveal(EditorView::removed);
        }
        // A deletion that crosses a line boundary may add/remove a list item.
        let gone = self.slice(s, e);
        let structural = contains_char(gone.as_str(), '\n');
        let empty = String::new();
        assert(empty@ =~= Seq::<char>::empty());
        self.replace_range(s, e, empty.as_str());
        if structural {
            self.renumber_ordered_run();
        }
    }
}

/// The number of an item, where it is the next after line `a`.
proof fn lemma_number_follows(
    v: EditorView,
    nodes: Seq<NodeView>,
    i: int,
    start: u64,
    first: int,
    a: int,
    b: int,
)
    requires
        first <= a < b,
        v.numbered(nodes, i, a),
        forall|l: int| a < l < b ==> !#[trigger] v.numbered(nodes, i, l),
    ensures
        v.number_at(nodes, i, start, first, b) == v.number_at(nodes, i, start, first, a).saturating_add(
            1,
        ),
    decreases b - a,
{
    if b > a + 1 {
        assert(!v.numbered(nodes, i, b - 1));
        lemma_number_follows(v, nodes, i, start, first, a, b - 1);
    }
}

/// An item of a renumbered list reads back with its new number and the content it had.
proof fn lemma_rebuilt_reads_back(v: EditorView, nodes: Seq<NodeView>, i: int, line: int, number: u64)
    requires
        v.numbered(nodes, i, line),
        (marker_of(v.content(line))->0).ordered(),
        number < 1_000_000_000,
    ensures
        ({
            let text = v.rebuilt(nodes, i, line, number);
            let before = marker_of(v.content(line))->0;
            let after = marker_of(text)->0;
            &&& marker_of(text) is Some
            &&& after.kind == ListMarkerKind::Ordered { number, delimiter: before.kind->delimiter }
            &&& after.indent == before.indent
            &&& text.skip(after.prefix_len) == v.content(line).skip(before.prefix_len)
        }),
{
    lemma_number_reads_back(v.content(line), number);
}

/// A list whose items are numbered one by one already is left as it is, however the numbers
/// are written.
pub proof fn lemma_sequential_lists_are_kept(
    v: EditorView,
    nodes: Seq<NodeView>,
    i: int,
    start: u64,
    first: int,
    last: int,
)
    requires
        forall|l: int|
            first <= l <= last && #[trigger] v.numbered(nodes, i, l) ==> (marker_of(
                v.content(l),
            )->0).ordered() && (marker_of(v.content(l))->0).kind->number == v.number_at(
                nodes,
                i,
                start,
                first,
                l,
            ),
    ensures
        v.list_renumbered(nodes, i, start, first, last) == v,
{
}

/// After renumbering the items of an ordered list count up one by one: an item reads back
/// with the number after that of the item before it, and with the content that it had.
pub proof fn lemma_items_count_up(
    v: EditorView,
    nodes: Seq<NodeView>,
    i: int,
    start: u64,
    first: int,
    a: int,
    b: int,
)
    requires
        first <= a < b,
        v.numbered(nodes, i, a),
        v.numbered(nodes, i, b),
        forall|l: int| a < l < b ==> !#[trigger] v.numbered(nodes, i, l),
        (marker_of(v.content(a))->0).ordered(),
        (marker_of(v.content(b))->0).ordered(),
        v.number_at(nodes, i, start, first, b) < 1_000_000_000,
    ensures
        ({
            let one = v.rebuilt(nodes, i, a, v.number_at(nodes, i, start, first, a));
            let next = v.rebuilt(nodes, i, b, v.number_at(nodes, i, start, first, b));
            &&& marker_of(one) is Some
            &&& marker_of(next) is Some
            &&& (marker_of(next)->0).kind->number == (marker_of(one)->0).kind->number + 1
            &&& next.skip((marker_of(next)->0).prefix_len) == v.content(b).skip(
                (marker_of(v.content(b))->0).prefix_len,
            )
        }),
{
    lemma_number_follows(v, nodes, i, start, first, a, b);
    lemma_rebuilt_reads_back(v, nodes, i, a, v.number_at(nodes, i, start, first, a));
    lemma_rebuilt_reads_back(v, nodes, i, b, v.number_at(nodes, i, start, first, b));
}

/// A quote or an underscore inside a word, and a `<` behind what can be compared, come alone;
/// a bracket never does.
pub proof fn lemma_what_comes_alone(before: Seq<char>, c: char)
    ensures
        before.len() > 0 && word_char(before.last()) && (c == '\'' || c == '"' || c == '_')
            ==> !brings_closer(c, before),
        before.len() > 0 && word_char(before.last()) && !list_space(before.last()) && c == '<'
            ==> !brings_closer(c, before),
        c == '(' || c == '[' || c == '{' ==> brings_closer(c, before),
        before.len() == 0 && (c == '\'' || c == '"' || c == '_' || c == '<') ==> brings_closer(c, before),
{
}

} // verus!
