//! The editing core: the buffer, the cursor and its selection, the undo history, and what
//! is derived from the text (its layout, the tokenizer state of its lines, its blocks),
//! kept in step with every edit.

use vstd::prelude::*;
use vstd::utf8::*;

use crate::block_index::{
    definitions, document_blocks, lemma_seam_is_above, lemma_windowed_is_whole, seam_holds,
    upper_seam_of, BlockIndex, BlockIndexStats, BlockIndexView, FULL_FLOOR_BYTES,
};
use crate::buffer::{edited_text, lemma_edited_bytes, BufferView, TextBuffer};
use crate::bytes::{boundary, lemma_boundary_ends, slice, text_between};
use crate::cursor::{line_end, next_word, prev_word, row_away, Cursor};
use crate::edits::{
    edit_splice, joins_crlf, lemma_edit_replaces_lines, lemma_lines_above_an_edit,
};
use crate::history::{
    leads, lemma_inverse_restores, lemma_recorded_is_undoable, lemma_recording_leaves_the_saved_state,
    lemma_redone_leads_on, lemma_undone_leads_back, redoable, spliced, undoable, Edit, EditView,
    History, HistoryView, RUN_PAUSE,
};
use crate::layout::{
    contents_replaced, lemma_incremental_layout_is_fresh, lemma_line_end_boundary, line_content,
    line_counts, recounted, row_is_filled, row_whole, rows_before, total_of, DisplayLine, Layout,
    LayoutView, MAX_WRAP,
};
use crate::line_index::{
    indexed, least, lemma_incremental_index_is_fresh, lines_replaced, most, splice_of, union_of,
    LineIndex, LineIndexView, LineUpdate, Splice,
};
use crate::matches::{
    complaint, find_matches, found, matches_fit, SearchKey, SearchMatch, SearchOptions,
};
use crate::markdown::tokenizer::{content_end, content_length};
use crate::rope::{
    break_ends_at, breaks_before, lemma_breaks_before, lemma_char_index_at_boundary, lemma_line_of,
    lemma_line_start_boundary, lemma_line_starts_grow, line_bytes, line_count, line_start,
    rope_byte, rope_byte_to_char, rope_byte_to_line, rope_char, rope_len_bytes, rope_len_lines,
    rope_line, rope_line_to_byte, rope_to_string,
};
use crate::row_cache::{lemma_kept_lines_are_right, RowCache};
use crate::strings::{byte_len, byte_length, lemma_bytes_injective, opt_view, same};
use crate::text::{next_cluster, next_grapheme, prev_cluster, prev_grapheme};

verus! {

/// A cursor motion, shared by every preset.
#[derive(Clone, Copy, Debug, PartialEq, Eq, Structural)]
pub enum Motion {
    Left,
    Right,
    Up,
    Down,
    LineStart,
    LineEnd,
    WordForward,
    WordBack,
    DocStart,
    DocEnd,
    PageUp,
    PageDown,
}

/// The last place at or before `i` where a character begins.
pub open spec fn floor_boundary(b: Seq<u8>, i: int) -> int
    decreases i,
{
    if i <= 0 {
        0
    } else if boundary(b, i) {
        i
    } else {
        floor_boundary(b, i - 1)
    }
}

pub proof fn lemma_floor_boundary(b: Seq<u8>, i: int)
    requires
        valid_utf8(b),
        0 <= i,
    ensures
        0 <= floor_boundary(b, i) <= i,
        boundary(b, floor_boundary(b, i)),
        boundary(b, i) ==> floor_boundary(b, i) == i,
    decreases i,
{
    lemma_boundary_ends(b);
    if i > 0 && !boundary(b, i) {
        lemma_floor_boundary(b, i - 1);
    }
}

/// A document laid out at a width.
pub open spec fn laid_out(text: Seq<char>, wrap: int, tab: int) -> LayoutView {
    LayoutView {
        counts: line_counts(text, most(wrap, 1), most(tab, 1)),
        text,
        wrap: most(wrap, 1),
        tab: most(tab, 1),
    }
}

/// The class flags of the lines that a replacement exchanges, before and after.
pub open spec fn touched_flags(
    before: Seq<u8>,
    after: Seq<u8>,
    start: int,
    end: int,
    inserted: int,
) -> u8 {
    let s = edit_splice(before, after, start, end, inserted);
    if joins_crlf(before, after, start) {
        255
    } else {
        union_of(
            indexed(before).flags.subrange(s.start, s.start + s.removed) + indexed(
                after,
            ).flags.subrange(s.start, s.start + s.added),
        )
    }
}

/// What an [`Editor`] holds.
pub struct EditorView {
    pub doc: BufferView,
    pub cursor: Cursor,
    /// Selection anchor (byte offset); the selection runs to the cursor.
    pub anchor: Option<usize>,
    pub history: HistoryView,
    pub wrap_width: usize,
    pub tab_width: usize,
    pub blocks: BlockIndexView,
    /// Monotonic content version, bumped on every edit.
    pub version: u64,
    /// When the buffer was last edited, for the auto-save idle check.
    pub last_edit: Option<u64>,
    /// Until when a failed automatic save is not tried again.
    pub retry_at: Option<u64>,
    /// The time, in milliseconds.
    pub now: u64,
    /// The search whose matches are known for the text.
    pub searched: Option<SearchKey>,
    /// What was wrong with the last query.
    pub complaint: Option<Seq<char>>,
    /// How often the text was searched.
    pub scans: u64,
}

impl EditorView {
    pub open spec fn bytes(self) -> Seq<u8> {
        self.doc.bytes()
    }

    /// The document as it is laid out.
    pub open spec fn layout(self) -> LayoutView {
        laid_out(self.doc.text, self.wrap_width as int, self.tab_width as int)
    }

    /// The history leads back and on from the text, every place in the document is one
    /// where a character begins, and the document can be laid out.
    pub open spec fn ok(self) -> bool {
        &&& self.history.wf()
        &&& undoable(self.history.undo, self.bytes())
        &&& redoable(self.history.redo, self.bytes())
        &&& 2 * self.bytes().len() + 2 <= usize::MAX
        &&& boundary(self.bytes(), self.cursor.byte as int)
        &&& match self.anchor {
            Some(a) => boundary(self.bytes(), a as int),
            None => true,
        }
        &&& self.wrap_width <= MAX_WRAP
    }

    /// The editor with the cursor at a byte.
    pub open spec fn at(self, byte: int) -> EditorView {
        EditorView { cursor: Cursor { byte: byte as usize, ..self.cursor }, ..self }
    }

    /// The editor with the goal column that of the cursor.
    pub open spec fn synced(self) -> EditorView {
        EditorView {
            cursor: Cursor {
                goal_col: self.layout().position(self.cursor.byte as int).1 as u16,
                ..self.cursor
            },
            ..self
        }
    }

    /// The editor with the run of typing ended: the next edit is a step of its own.
    pub open spec fn run_ended(self) -> EditorView {
        EditorView { history: HistoryView { open: false, ..self.history }, ..self }
    }

    /// Whether there was no edit for so long that a run of typing is over.
    pub open spec fn paused(self) -> bool {
        match self.last_edit {
            Some(at) => self.now.saturating_sub(at) >= RUN_PAUSE,
            None => false,
        }
    }

    /// The history that the next edit is recorded in: after a pause it is a step of its
    /// own.
    pub open spec fn timely_history(self) -> HistoryView {
        if self.paused() {
            HistoryView { open: false, ..self.history }
        } else {
            self.history
        }
    }

    /// The editor without a selection.
    pub open spec fn unselected(self) -> EditorView {
        EditorView { anchor: None, ..self }
    }

    /// The selection as an ordered byte range, or `None` when empty.
    pub open spec fn selection(self) -> Option<(usize, usize)> {
        match self.anchor {
            Some(a) => if a < self.cursor.byte {
                Some((a, self.cursor.byte))
            } else if a > self.cursor.byte {
                Some((self.cursor.byte, a))
            } else {
                None
            },
            None => None,
        }
    }

    /// The line that the cursor is on.
    pub open spec fn cursor_line(self) -> int {
        breaks_before(self.bytes(), self.cursor.byte as int)
    }

    /// The byte range of a line, with its line ending.
    pub open spec fn line_range(self, line: int) -> (int, int) {
        (line_start(self.bytes(), line), line_start(self.bytes(), line + 1))
    }

    /// A line, without its line ending.
    pub open spec fn content(self, line: int) -> Seq<char> {
        line_content(line_bytes(self.bytes(), line))
    }

    /// What ends a line.
    pub open spec fn ending(self, line: int) -> Seq<char> {
        let b = line_bytes(self.bytes(), line);
        text_between(b, content_end(b), b.len() as int)
    }

    /// Where the content of a line ends.
    pub open spec fn content_stop(self, line: int) -> int {
        line_start(self.bytes(), line) + byte_len(self.content(line))
    }

    /// The line ending that the file uses.
    pub open spec fn newline(self) -> Seq<char> {
        if self.doc.crlf {
            "\r\n"@
        } else {
            "\n"@
        }
    }

    /// The character at the cursor.
    pub open spec fn char_at_cursor(self) -> Option<char> {
        if self.cursor.byte < self.bytes().len() {
            Some(decode_utf8(self.bytes().skip(self.cursor.byte as int))[0])
        } else {
            None
        }
    }

    /// What stands on the cursor's line before it.
    pub open spec fn line_before_cursor(self) -> Seq<char> {
        self.slice(line_start(self.bytes(), self.cursor_line()), self.cursor.byte as int)
    }

    /// The text between two places.
    pub open spec fn slice(self, start: int, end: int) -> Seq<char> {
        text_between(self.bytes(), start, end)
    }

    /// What an edit derives anew: the text, its blocks and its version.
    #[verifier::opaque]
    pub open spec fn changed(self, text: Seq<char>, start: int, end: int, inserted: int) -> EditorView {
        let before = self.bytes();
        let after = encode_utf8(text);
        let version = self.version.saturating_add(1);
        EditorView {
            doc: self.doc.with_text(text),
            blocks: self.blocks.edited(
                text,
                breaks_before(before, start),
                touched_flags(before, after, start, end, inserted),
                indexed(after),
                version,
            ),
            version,
            last_edit: Some(self.now),
            retry_at: None,
            searched: None,
            ..self
        }
    }

    /// The editor after a search. One that was made before, in the same text, is not made
    /// again.
    pub open spec fn after_search(self, key: SearchKey) -> EditorView {
        if key.query.len() == 0 || self.searched == Some(key) {
            self
        } else {
            EditorView {
                searched: Some(key),
                complaint: complaint(self.doc.text, key),
                scans: self.scans.saturating_add(1),
                ..self
            }
        }
    }

    /// Whether a document of this many bytes can be edited: it must be possible to lay it
    /// out, and to count the edit.
    pub open spec fn has_room(self, len: int) -> bool {
        2 * len + 2 <= usize::MAX && self.history.depth() < usize::MAX
    }

    /// The editor after the bytes `[start, end)` were replaced by `text`: one step of the
    /// history, with the cursor after the inserted text or where `cursor_after` says. A
    /// no-op is none; nor is an edit that the machine has no room for.
    #[verifier::opaque]
    pub open spec fn replaced(
        self,
        start: int,
        end: int,
        text: Seq<char>,
        cursor_after: Option<usize>,
    ) -> EditorView {
        let n = byte_len(text) as int;
        let fresh = edited_text(self.doc.text, start, end - start, text);
        let after = encode_utf8(fresh);
        let wanted = match cursor_after {
            Some(c) => c as int,
            None => start + n,
        };
        let cursor = floor_boundary(after, least(wanted, after.len() as int));
        let edit = EditView {
            start,
            removed: self.slice(start, end),
            inserted: text,
            cursor_before: self.cursor.byte as int,
            cursor_after: cursor,
        };
        let history = self.timely_history().recorded(edit);
        if (end <= start && text.len() == 0) || !self.has_room(
            self.bytes().len() - (end - start) + n,
        ) {
            self
        } else {
            let v = self.changed(fresh, start, end, n);
            EditorView {
                doc: BufferView { modified: !history.at_saved_state(), ..v.doc },
                cursor: Cursor { byte: cursor as usize, ..v.cursor },
                anchor: None,
                history,
                ..v
            }
        }
    }

    /// The editor after a step of the history was taken back or made again: `edit` leads
    /// to its text, and the cursor goes where `edit` ends.
    #[verifier::opaque]
    pub open spec fn stepped(self, edit: EditView, history: HistoryView) -> EditorView {
        let fresh = edited_text(
            self.doc.text,
            edit.start,
            byte_len(edit.removed) as int,
            edit.inserted,
        );
        let v = self.changed(
            fresh,
            edit.start,
            edit.start + byte_len(edit.removed),
            byte_len(edit.inserted) as int,
        );
        EditorView {
            doc: BufferView { modified: !history.at_saved_state(), ..v.doc },
            cursor: Cursor { byte: edit.cursor_after as usize, ..v.cursor },
            anchor: None,
            history,
            ..v
        }
    }

    /// The editor after the last edit was undone.
    pub open spec fn undone(self) -> EditorView {
        if self.history.undo.len() == 0 {
            self
        } else {
            self.stepped(self.history.undo.last().inverse(), self.history.undone())
        }
    }

    /// The editor after the last undone edit was made again.
    pub open spec fn redone(self) -> EditorView {
        if self.history.redo.len() == 0 {
            self
        } else {
            self.stepped(self.history.redo.last(), self.history.redone())
        }
    }

    /// Where a motion leads.
    pub open spec fn target(self, motion: Motion, page: int) -> int {
        let text = self.doc.text;
        let b = self.bytes();
        let at = self.cursor.byte as int;
        let goal = self.cursor.goal_col as int;
        let row = self.layout().position(at).0;
        match motion {
            Motion::Left => prev_cluster(text, at),
            Motion::Right => next_cluster(text, at),
            Motion::Up => if row > 0 {
                self.layout().byte_at(row - 1, goal)
            } else {
                at
            },
            Motion::Down => if row + 1 < total_of(self.layout().counts) {
                self.layout().byte_at(row + 1, goal)
            } else {
                at
            },
            Motion::LineStart => line_start(b, breaks_before(b, at)),
            Motion::LineEnd => line_end(b, at),
            Motion::WordForward => next_word(text, at),
            Motion::WordBack => prev_word(text, at),
            Motion::DocStart => 0,
            Motion::DocEnd => b.len() as int,
            Motion::PageUp => row_away(self.layout(), at, goal, -page),
            Motion::PageDown => row_away(self.layout(), at, goal, page),
        }
    }

    /// The editor after a motion: the selection grows (`extend`) or ends, the run of
    /// typing ends, and the goal column follows horizontal moves.
    #[verifier::opaque]
    pub open spec fn moved(self, motion: Motion, extend: bool, page: int) -> EditorView {
        let anchor = if extend {
            match self.anchor {
                Some(a) => Some(a),
                None => Some(self.cursor.byte),
            }
        } else {
            None
        };
        let v = EditorView { anchor, ..self.at(self.target(motion, page)) }.run_ended();
        if motion == Motion::Up || motion == Motion::Down || motion == Motion::PageUp || motion
            == Motion::PageDown {
            v
        } else {
            v.synced()
        }
    }

    /// The editor after `text` was inserted, in place of the selection if there is one.
    pub open spec fn inserted(self, text: Seq<char>) -> EditorView {
        match self.selection() {
            Some((s, e)) => self.replaced(s as int, e as int, text, None),
            None => self.replaced(
                self.cursor.byte as int,
                self.cursor.byte as int,
                text,
                None,
            ),
        }
    }

    /// What backspace deletes: the selection, or the cluster before the cursor.
    pub open spec fn backspace_range(self) -> Option<(int, int)> {
        match self.selection() {
            Some((s, e)) => Some((s as int, e as int)),
            None => if self.cursor.byte > 0 {
                Some((prev_cluster(self.doc.text, self.cursor.byte as int), self.cursor.byte as int))
            } else {
                None
            },
        }
    }

    /// What delete deletes: the selection, or the cluster after the cursor.
    pub open spec fn delete_range(self) -> Option<(int, int)> {
        match self.selection() {
            Some((s, e)) => Some((s as int, e as int)),
            None => if self.cursor.byte < self.bytes().len() {
                Some((self.cursor.byte as int, next_cluster(self.doc.text, self.cursor.byte as int)))
            } else {
                None
            },
        }
    }

    /// What copying takes: the selection, or else the cursor's line with its line ending.
    pub open spec fn copy_range(self) -> (int, int) {
        match self.selection() {
            Some((s, e)) => (s as int, e as int),
            None => self.line_range(self.cursor_line()),
        }
    }

    /// The editor with the last edit's end where the cursor is, so that redoing it lands
    /// there.
    pub open spec fn cursor_recorded(self) -> EditorView {
        if self.history.undo.len() == 0 {
            self
        } else {
            EditorView {
                history: HistoryView {
                    undo: self.history.undo.drop_last().push(
                        EditView {
                            cursor_after: self.cursor.byte as int,
                            ..self.history.undo.last()
                        },
                    ),
                    ..self.history
                },
                ..self
            }
        }
    }

    /// The editor of another document, with everything derived anew. The cursor stays as
    /// far as the document reaches.
    pub open spec fn reset(self, doc: BufferView, history: HistoryView) -> EditorView {
        let b = doc.bytes();
        let version = self.version.saturating_add(1);
        EditorView {
            doc,
            cursor: Cursor {
                byte: floor_boundary(b, least(self.cursor.byte as int, b.len() as int)) as usize,
                ..self.cursor
            },
            anchor: None,
            history,
            blocks: no_blocks(),
            version,
            retry_at: None,
            searched: None,
            ..self
        }
    }
}

/// The index of no blocks, which is stale from the start.
pub open spec fn no_blocks() -> BlockIndexView {
    BlockIndexView {
        blocks: Seq::empty(),
        defs: Seq::empty(),
        version: None,
        floor: FULL_FLOOR_BYTES as int,
        stats: BlockIndexStats {
            full_rebuilds: 0,
            windowed_updates: 0,
            full_fallbacks: 0,
            last_parse_us: 0,
        },
    }
}

/// An edit after a pause is the last step of the history, on its own.
#[verifier::spinoff_prover]
proof fn lemma_replaced_is_the_last_step(
    v: EditorView,
    start: int,
    end: int,
    text: Seq<char>,
    cursor_after: Option<usize>,
)
    requires
        v.ok(),
        !v.history.open || v.paused(),
        boundary(v.bytes(), start),
        boundary(v.bytes(), end),
        start <= end,
        start < end || text.len() > 0,
        v.has_room(v.bytes().len() - (end - start) + byte_len(text)),
    ensures
        ({
            let w = v.replaced(start, end, text, cursor_after);
            let e = w.history.undo.last();
            &&& w.history.undo.len() > 0
            &&& e.apply(v.bytes()) == w.bytes()
            &&& e.cursor_before == v.cursor.byte
            &&& e.cursor_after == w.cursor.byte
            &&& e.applies_to(v.bytes())
            &&& e.start == start
            &&& byte_len(e.removed) == end - start
            &&& boundary(w.bytes(), e.start)
            &&& boundary(w.bytes(), e.start + byte_len(e.inserted))
        }),
{
    reveal(EditorView::replaced);
    reveal(EditorView::changed);
    lemma_replaced_ok(v, start, end, text, cursor_after);
    lemma_edited_bytes(v.doc.text, start, end, text);
    lemma_slice_bytes(v.doc.text, start, end);
    encode_utf8_valid_utf8(v.doc.text);
    lemma_splice_boundaries(v.bytes(), start, end, text);
}

/// A step that leads to the bytes of a text leads to that text.
#[verifier::spinoff_prover]
proof fn lemma_step_reaches(v: EditorView, e: EditView, history: HistoryView, goal: Seq<char>)
    requires
        e.applies_to(v.bytes()),
        e.apply(v.bytes()) == encode_utf8(goal),
        boundary(v.bytes(), e.start),
        boundary(v.bytes(), e.start + byte_len(e.removed)),
    ensures
        v.stepped(e, history).doc.text == goal,
        v.stepped(e, history).cursor.byte == e.cursor_after as usize,
        v.stepped(e, history).history == history,
{
    reveal(EditorView::stepped);
    reveal(EditorView::changed);
    lemma_stepped_bytes(v, e, encode_utf8(goal));
    lemma_bytes_injective(v.stepped(e, history).doc.text, goal);
}

/// Undoing a step of its own, such as an edit after a pause, restores the text, and redoing
/// it then restores what it made.
#[verifier::spinoff_prover]
pub proof fn lemma_undo_restores_the_text(
    v: EditorView,
    start: int,
    end: int,
    text: Seq<char>,
    cursor_after: Option<usize>,
)
    requires
        v.ok(),
        !v.history.open || v.paused(),
        boundary(v.bytes(), start),
        boundary(v.bytes(), end),
        start <= end,
        start < end || text.len() > 0,
        v.has_room(v.bytes().len() - (end - start) + byte_len(text)),
    ensures
        ({
            let w = v.replaced(start, end, text, cursor_after);
            &&& w.undone().doc.text == v.doc.text
            &&& w.undone().cursor.byte == v.cursor.byte
            &&& w.undone().redone().doc.text == w.doc.text
            &&& w.undone().redone().cursor.byte == w.cursor.byte
        }),
{
    let w = v.replaced(start, end, text, cursor_after);
    lemma_replaced_is_the_last_step(v, start, end, text, cursor_after);
    let e = w.history.undo.last();
    lemma_inverse_restores(e, v.bytes());
    lemma_step_reaches(w, e.inverse(), w.history.undone(), v.doc.text);
    let u = w.undone();
    assert(u.history.redo.last() == e);
    lemma_step_reaches(u, e, u.history.redone(), w.doc.text);
}

/// A layout that is brought up to date after an edit, from the lines that the edit begins
/// and ends on, is the layout that is built anew for the text after it. Every question is
/// then answered alike.
pub proof fn lemma_updated_layout_is_rebuilt(v: LayoutView, start: int, end: int, text: Seq<char>)
    requires
        v.fresh(),
        1 <= v.wrap,
        1 <= v.tab,
        boundary(v.bytes(), start),
        boundary(v.bytes(), end),
        start <= end,
        !joins_crlf(
            v.bytes(),
            encode_utf8(edited_text(v.text, start, end - start, text)),
            start,
        ),
    ensures
        ({
            let fresh = edited_text(v.text, start, end - start, text);
            let before = v.bytes();
            let after = encode_utf8(fresh);
            let first = breaks_before(before, start);
            let s = splice_of(
                v.counts.len() as int,
                line_count(after),
                first,
                breaks_before(before, end) - first + 1,
                breaks_before(after, start + byte_len(text)) - first + 1,
            );
            LayoutView { counts: recounted(v, fresh, s), text: fresh, ..v } == laid_out(
                fresh,
                v.wrap,
                v.tab,
            )
        }),
{
    let fresh = edited_text(v.text, start, end - start, text);
    let before = v.bytes();
    let after = encode_utf8(fresh);
    let n = byte_len(text) as int;
    encode_utf8_valid_utf8(v.text);
    lemma_edited_bytes(v.text, start, end, text);
    lemma_splice_boundaries(before, start, end, text);
    lemma_line_of(before, start);
    lemma_line_of(before, end);
    lemma_line_of(after, start + n);
    lemma_breaks_before(before, start, end);
    lemma_breaks_before(before, 0, start);
    lemma_edit_replaces_lines(before, start, end, encode_utf8(text));
    let s = edit_splice(before, after, start, end, n);
    assert(contents_replaced(before, after, s)) by {
        assert(lines_replaced(before, after, s));
    }
    lemma_incremental_layout_is_fresh(v, fresh, s);
    assert(v.counts.len() == line_count(before));
}

/// A block index that was that of a document parsed whole is, after an edit, that of the
/// document after it parsed whole, wherever the parser holds to the seams that edits are
/// parsed again from. An edit that was missed marks it stale and leaves its blocks alone.
pub proof fn lemma_edits_keep_the_index_whole(
    v: BlockIndexView,
    before: Seq<char>,
    start: int,
    end: int,
    text: Seq<char>,
    touched: u8,
    lines: LineIndexView,
    version: u64,
)
    requires
        v.blocks == document_blocks(before),
        v.defs == definitions(before),
        v.version is Some,
        boundary(encode_utf8(before), start),
        boundary(encode_utf8(before), end),
        start <= end,
        encode_utf8(before).len() < usize::MAX,
        encode_utf8(edited_text(before, start, end - start, text)).len() < usize::MAX,
        !joins_crlf(
            encode_utf8(before),
            encode_utf8(edited_text(before, start, end - start, text)),
            start,
        ),
        forall|dirty: int, seam: int|
            #[trigger] upper_seam_of(v.blocks, lines, dirty) == Some(seam) && 0 < seam
                <= breaks_before(encode_utf8(before), start) ==> #[trigger] seam_holds(before, seam)
                && seam_holds(edited_text(before, start, end - start, text), seam),
    ensures
        ({
            let after = edited_text(before, start, end - start, text);
            let first = breaks_before(encode_utf8(before), start);
            let w = v.edited(after, first, touched, lines, version);
            if v.version->0 + 1 == version {
                &&& w.version == Some(version)
                &&& w.blocks == v.rebuilt(after, version).blocks
                &&& w.defs == v.rebuilt(after, version).defs
            } else {
                &&& w.version is None
                &&& w.blocks == v.blocks
            }
        }),
{
    let after = edited_text(before, start, end - start, text);
    let a = encode_utf8(before);
    let b = encode_utf8(after);
    let n = byte_len(text) as int;
    let first = breaks_before(a, start);
    encode_utf8_valid_utf8(before);
    lemma_edited_bytes(before, start, end, text);
    lemma_splice_boundaries(a, start, end, text);
    lemma_line_of(a, start);
    lemma_breaks_before(a, 0, start);
    lemma_breaks_before(a, 0, a.len() as int);
    lemma_breaks_before(b, 0, b.len() as int);
    lemma_edit_replaces_lines(a, start, end, encode_utf8(text));
    let s = edit_splice(a, b, start, end, n);
    assert(lines_replaced(a, b, s));
    assert(first < line_count(b));
    assert(least(first, line_count(b) - 1) == first);
    lemma_seam_is_above(v, lines, first);
    match upper_seam_of(v.blocks, lines, v.dirty_line(first)) {
        Some(seam) => {
            lemma_lines_above_an_edit(a, start, end, encode_utf8(text), seam);
            let q = line_start(a, seam);
            assert(a.subrange(0, q) =~= b.subrange(0, q));
            lemma_windowed_is_whole(v, before, after, seam, version);
        },
        None => {},
    }
}

/// What a replacement makes of the text and the cursor.
pub(crate) proof fn lemma_replaced_bytes(v: EditorView, start: int, end: int, text: Seq<char>)
    requires
        boundary(v.bytes(), start),
        boundary(v.bytes(), end),
        start <= end,
        start < end || text.len() > 0,
        v.has_room(v.bytes().len() - (end - start) + byte_len(text)),
    ensures
        ({
            let w = v.replaced(start, end, text, None);
            &&& w.bytes() == spliced(v.bytes(), start, end - start, encode_utf8(text))
            &&& w.cursor.byte == start + byte_len(text)
            &&& w.anchor is None
        }),
{
    reveal(EditorView::replaced);
    reveal(EditorView::changed);
    let w = v.replaced(start, end, text, None);
    lemma_edited_bytes(v.doc.text, start, end, text);
    encode_utf8_valid_utf8(v.doc.text);
    encode_utf8_valid_utf8(w.doc.text);
    lemma_splice_boundaries(v.bytes(), start, end, text);
    lemma_floor_boundary(w.bytes(), start + byte_len(text));
}

/// A range that is not empty has a text.
pub(crate) proof fn lemma_slice_is_not_empty(v: EditorView, start: int, end: int)
    requires
        boundary(v.bytes(), start),
        boundary(v.bytes(), end),
        start < end,
    ensures
        v.slice(start, end).len() > 0,
{
    encode_utf8_valid_utf8(v.doc.text);
    lemma_slice_bytes(v.doc.text, start, end);
    if v.slice(start, end).len() == 0 {
        assert(v.slice(start, end) =~= Seq::<char>::empty());
        assert(encode_utf8(Seq::<char>::empty()) =~= Seq::<u8>::empty());
    }
}

/// Taking bytes out leaves the cursor where they were, with nothing selected.
proof fn lemma_taken_out(v: EditorView, start: int, end: int)
    requires
        v.ok(),
        boundary(v.bytes(), start),
        boundary(v.bytes(), end),
        start < end,
        v.has_room(v.bytes().len() - (end - start)),
    ensures
        ({
            let w = v.replaced(start, end, Seq::empty(), None).run_ended();
            &&& w.ok()
            &&& w.bytes() == spliced(v.bytes(), start, end - start, Seq::empty())
            &&& w.cursor.byte == start
            &&& w.selection() is None
        }),
{
    let none = Seq::<char>::empty();
    assert(encode_utf8(none) =~= Seq::<u8>::empty());
    lemma_replaced_ok(v, start, end, none, None);
    lemma_replaced_bytes(v, start, end, none);
}

/// Bytes that were taken out and are put in again where they were.
proof fn lemma_splice_back(b: Seq<u8>, start: int, end: int)
    requires
        0 <= start <= end <= b.len(),
    ensures
        spliced(spliced(b, start, end - start, Seq::empty()), start, 0, b.subrange(start, end))
            == b,
{
    let less = spliced(b, start, end - start, Seq::empty());
    assert(less.take(start) =~= b.take(start));
    assert(less.skip(start) =~= b.skip(end));
    assert(b.take(start) + b.subrange(start, end) + b.skip(end) =~= b);
}

/// What was taken out and is inserted again where it was restores the text.
#[verifier::spinoff_prover]
pub proof fn lemma_inserting_back_restores_the_text(v: EditorView, start: int, end: int)
    requires
        v.ok(),
        boundary(v.bytes(), start),
        boundary(v.bytes(), end),
        start < end,
        v.has_room(v.bytes().len() - (end - start)),
        v.replaced(start, end, Seq::empty(), None).has_room(v.bytes().len() as int),
    ensures
        v.replaced(start, end, Seq::empty(), None).run_ended().inserted(v.slice(start, end)).doc.text
            == v.doc.text,
{
    let b = v.bytes();
    let t = v.slice(start, end);
    let w = v.replaced(start, end, Seq::empty(), None).run_ended();
    lemma_taken_out(v, start, end);
    lemma_slice_bytes(v.doc.text, start, end);
    lemma_slice_is_not_empty(v, start, end);
    lemma_splice_back(b, start, end);
    assert(w.bytes().len() - (start - start) + byte_len(t) == b.len());
    assert(w.has_room(b.len() as int));
    lemma_replaced_bytes(w, start, start, t);
    lemma_bytes_injective(w.replaced(start, start, t, None).doc.text, v.doc.text);
}

pub(crate) proof fn lemma_slice_bytes(text: Seq<char>, start: int, end: int)
    requires
        boundary(encode_utf8(text), start),
        boundary(encode_utf8(text), end),
        start <= end,
    ensures
        encode_utf8(text_between(encode_utf8(text), start, end)) == encode_utf8(text).subrange(
            start,
            end,
        ),
        byte_len(text_between(encode_utf8(text), start, end)) == end - start,
{
    let b = encode_utf8(text);
    encode_utf8_valid_utf8(text);
    crate::bytes::lemma_valid_between(b, start, end);
    decode_utf8_encode_utf8(b.subrange(start, end));
}

/// Where an edit leads, as text.
proof fn lemma_stepped_bytes(v: EditorView, e: EditView, goal: Seq<u8>)
    requires
        e.applies_to(v.bytes()),
        e.apply(v.bytes()) == goal,
        boundary(v.bytes(), e.start),
        boundary(v.bytes(), e.start + byte_len(e.removed)),
    ensures
        encode_utf8(
            edited_text(v.doc.text, e.start, byte_len(e.removed) as int, e.inserted),
        ) == goal,
{
    lemma_edited_bytes(v.doc.text, e.start, e.start + byte_len(e.removed), e.inserted);
}

/// A replacement keeps the editor in order, and is the last step of its history.
pub proof fn lemma_replaced_ok(
    v: EditorView,
    start: int,
    end: int,
    text: Seq<char>,
    cursor_after: Option<usize>,
)
    requires
        v.ok(),
        boundary(v.bytes(), start),
        boundary(v.bytes(), end),
        start <= end,
    ensures
        v.replaced(start, end, text, cursor_after).ok(),
{
    reveal(EditorView::replaced);
    reveal(EditorView::changed);
    let n = byte_len(text) as int;
    if (end <= start && text.len() == 0) || !v.has_room(v.bytes().len() - (end - start) + n) {
        return ;
    }
    let w = v.replaced(start, end, text, cursor_after);
    let before = v.bytes();
    let after = w.bytes();
    lemma_edited_bytes(v.doc.text, start, end, text);
    lemma_slice_bytes(v.doc.text, start, end);
    encode_utf8_valid_utf8(v.doc.text);
    encode_utf8_valid_utf8(w.doc.text);
    let wanted = match cursor_after {
        Some(c) => c as int,
        None => start + n,
    };
    let cursor = floor_boundary(after, least(wanted, after.len() as int));
    lemma_floor_boundary(after, least(wanted, after.len() as int));
    let e = EditView {
        start,
        removed: v.slice(start, end),
        inserted: text,
        cursor_before: v.cursor.byte as int,
        cursor_after: cursor,
    };
    assert(after.len() == before.len() - (end - start) + n);
    lemma_splice_boundaries(before, start, end, text);
    assert(leads(e, before, after));
    lemma_recorded_is_undoable(v.timely_history(), e, before, after);
    lemma_recording_leaves_the_saved_state(v.timely_history(), e);
}

/// Both ends of replaced text are places where characters begin.
pub proof fn lemma_splice_boundaries(before: Seq<u8>, start: int, end: int, text: Seq<char>)
    requires
        valid_utf8(before),
        boundary(before, start),
        boundary(before, end),
        start <= end,
    ensures
        boundary(spliced(before, start, end - start, encode_utf8(text)), start),
        boundary(spliced(before, start, end - start, encode_utf8(text)), start + byte_len(text)),
{
    let t = encode_utf8(text);
    let after = spliced(before, start, end - start, t);
    encode_utf8_valid_utf8(text);
    lemma_boundary_ends(t);
    if t.len() > 0 {
        assert(after[start] == t[0]);
    } else if end < before.len() {
        assert(after[start] == before[end]);
    }
    if end < before.len() {
        assert(after[start + t.len()] == before[end]);
    }
}

/// Taking a step back keeps the editor in order.
proof fn lemma_undone_ok(v: EditorView)
    requires
        v.ok(),
        v.history.undo.len() > 0,
    ensures
        v.undone().ok(),
{
    reveal(EditorView::stepped);
    reveal(EditorView::changed);
    let b = v.bytes();
    let e = v.history.undo.last();
    let before = e.inverse().apply(b);
    lemma_inverse_restores(e, before);
    lemma_undone_leads_back(v.history, b);
    lemma_stepped_bytes(v, e.inverse(), before);
}

/// Making a step again keeps the editor in order.
proof fn lemma_redone_ok(v: EditorView)
    requires
        v.ok(),
        v.history.redo.len() > 0,
    ensures
        v.redone().ok(),
{
    reveal(EditorView::stepped);
    reveal(EditorView::changed);
    let b = v.bytes();
    let e = v.history.redo.last();
    lemma_redone_leads_on(v.history, b);
    lemma_stepped_bytes(v, e, e.apply(b));
}

/// Taking a step back or making it again keeps the editor in order.
pub proof fn lemma_stepping_ok(v: EditorView)
    requires
        v.ok(),
    ensures
        v.undone().ok(),
        v.redone().ok(),
{
    if v.history.undo.len() > 0 {
        lemma_undone_ok(v);
    }
    if v.history.redo.len() > 0 {
        lemma_redone_ok(v);
    }
}

/// The editing core.
pub struct Editor {
    buffer: TextBuffer,
    cursor: Cursor,
    anchor: Option<usize>,
    history: History,
    layout: Layout,
    /// Rows of the layout that were asked for lately.
    rows: RowCache,
    layout_width: usize,
    layout_dirty: bool,
    wrap_width: usize,
    tab_width: usize,
    lines: LineIndex,
    blocks: BlockIndex,
    version: u64,
    last_edit: Option<u64>,
    retry_at: Option<u64>,
    now: u64,
    query: String,
    options: SearchOptions,
    scope: Option<(usize, usize)>,
    matches: Vec<SearchMatch>,
    complaint: Option<String>,
    searched: bool,
    scans: u64,
}

impl View for Editor {
    type V = EditorView;

    closed spec fn view(&self) -> EditorView {
        EditorView {
            doc: self.buffer@,
            cursor: self.cursor,
            anchor: self.anchor,
            history: self.history@,
            wrap_width: self.wrap_width,
            tab_width: self.tab_width,
            blocks: self.blocks@,
            version: self.version,
            last_edit: self.last_edit,
            retry_at: self.retry_at,
            now: self.now,
            searched: if self.searched {
                Some(self.key())
            } else {
                None
            },
            complaint: opt_view(self.complaint),
            scans: self.scans,
        }
    }
}

impl Editor {
    /// The search that was made last.
    closed spec fn key(&self) -> SearchKey {
        SearchKey { query: self.query@, options: self.options, scope: self.scope }
    }

    /// The line index is that of the text, the layout is too unless it is to be built
    /// again, and the block index can be updated.
    closed spec fn derived_ok(&self) -> bool {
        &&& self.lines.wf()
        &&& self.lines@ == indexed(self.buffer@.bytes())
        &&& self.layout.wf()
        &&& self.rows.wf(self.layout@)
        &&& self.layout_width <= MAX_WRAP
        &&& !self.layout_dirty ==> self.layout@ == laid_out(
            self.buffer@.text,
            self.layout_width as int,
            self.tab_width as int,
        )
        &&& self.blocks.defs_ok()
        &&& self.blocks@.in_order()
        &&& self.searched ==> self.query@.len() > 0 && self.matches@ == found(
            self.buffer@.text,
            self.key(),
        ) && matches_fit(self.matches@, self.buffer@.bytes())
    }

    /// The editor is in order, and so is what it derives from the text.
    pub closed spec fn wf(&self) -> bool {
        self@.ok() && self.derived_ok()
    }

    pub proof fn lemma_ok(&self)
        requires
            self.wf(),
        ensures
            self@.ok(),
    {
    }

    /// An editor on a buffer, the cursor at its beginning.
    pub fn new(buffer: TextBuffer, tab_width: usize) -> (editor: Self)
        requires
            2 * buffer@.bytes().len() + 2 <= usize::MAX,
        ensures
            editor.wf(),
            editor@ == (EditorView {
                doc: buffer@,
                cursor: Cursor { byte: 0, goal_col: 0 },
                anchor: None,
                history: HistoryView::fresh(),
                wrap_width: 1,
                tab_width,
                blocks: no_blocks(),
                version: 0,
                last_edit: None,
                retry_at: None,
                now: 0,
                searched: None,
                complaint: None,
                scans: 0,
            }),
    {
        let layout = Layout::build(buffer.rope(), 1, tab_width);
        let lines = LineIndex::build(buffer.rope());
        proof {
            encode_utf8_valid_utf8(buffer@.text);
            lemma_boundary_ends(buffer@.bytes());
        }
        let editor = Editor {
            buffer,
            cursor: Cursor::new(),
            anchor: None,
            history: History::new(),
            layout,
            rows: RowCache::new(),
            layout_width: 1,
            layout_dirty: false,
            wrap_width: 1,
            tab_width,
            lines,
            blocks: BlockIndex::new(),
            version: 0,
            last_edit: None,
            retry_at: None,
            now: 0,
            query: String::new(),
            options: SearchOptions::default(),
            scope: None,
            matches: Vec::new(),
            complaint: None,
            searched: false,
            scans: 0,
        };
        assert(editor@.blocks =~= no_blocks());
        editor
    }

    pub fn buffer(&self) -> (buffer: &TextBuffer)
        ensures
            buffer@ == self@.doc,
    {
        &self.buffer
    }

    pub fn cursor(&self) -> (cursor: Cursor)
        ensures
            cursor == self@.cursor,
    {
        self.cursor
    }

    pub fn anchor(&self) -> (anchor: Option<usize>)
        ensures
            anchor == self@.anchor,
    {
        self.anchor
    }

    pub fn version(&self) -> (version: u64)
        ensures
            version == self@.version,
    {
        self.version
    }

    pub fn wrap_width(&self) -> (width: usize)
        ensures
            width == self@.wrap_width,
    {
        self.wrap_width
    }

    pub fn tab_width(&self) -> (width: usize)
        ensures
            width == self@.tab_width,
    {
        self.tab_width
    }

    /// The line index of the text.
    pub fn line_index(&self) -> (lines: &LineIndex)
        requires
            self.wf(),
        ensures
            lines@ == indexed(self@.bytes()),
    {
        &self.lines
    }

    /// The document, laid out.
    pub fn layout(&mut self) -> (layout: &Layout)
        requires
            old(self).wf(),
        ensures
            final(self).wf(),
            final(self)@ == old(self)@,
            layout.wf(),
            layout@ == old(self)@.layout(),
    {
        self.ensure_layout();
        &self.layout
    }

    /// The display row with the given index (the last one, past the end).
    pub fn display_row(&mut self, row: usize) -> (r: DisplayLine)
        requires
            old(self).wf(),
        ensures
            final(self).wf(),
            final(self)@ == old(self)@,
            ({
                let v = old(self)@.layout();
                let at = least(row as int, total_of(v.counts) - 1);
                let line = v.line_of_row(at);
                let shown = least(line, line_count(v.bytes()) - 1);
                let rows = v.rows(shown);
                let i = least(at - rows_before(v.counts, line), rows.len() - 1);
                r@ == rows[i] && r.line == shown
            }),
            r.line < line_count(old(self)@.bytes()),
            row_is_filled(r@),
            row_whole(
                encode_utf8(line_content(line_bytes(old(self)@.bytes(), r.line as int))),
                r@,
            ),
    {
        self.ensure_layout();
        self.rows.row(&self.layout, row)
    }

    /// Build the layout again if the text or the width has changed.
    fn ensure_layout(&mut self)
        requires
            old(self).wf(),
        ensures
            final(self).wf(),
            final(self)@ == old(self)@,
            final(self).layout@ == old(self)@.layout(),
            final(self).lines == old(self).lines,
            !final(self).layout_dirty,
            final(self).layout_width == final(self).wrap_width,
    {
        if self.layout_dirty || self.layout_width != self.wrap_width {
            self.layout = Layout::build(self.buffer.rope(), self.wrap_width, self.tab_width);
            self.rows.clear();
            self.layout_width = self.wrap_width;
            self.layout_dirty = false;
        }
    }

    /// Set the width that lines are wrapped at.
    pub fn set_wrap_width(&mut self, width: usize)
        requires
            old(self).wf(),
            width <= MAX_WRAP,
        ensures
            final(self).wf(),
            final(self)@ == (EditorView { wrap_width: width, ..old(self)@ }),
    {
        self.wrap_width = width;
    }

    pub fn set_tab_width(&mut self, width: usize)
        requires
            old(self).wf(),
        ensures
            final(self).wf(),
            final(self)@ == (EditorView { tab_width: width, ..old(self)@ }),
    {
        self.tab_width = width;
        self.layout_dirty = true;
    }

    /// Tell the editor the time.
    pub fn set_clock(&mut self, now: u64)
        requires
            old(self).wf(),
        ensures
            final(self).wf(),
            final(self)@ == (EditorView { now, ..old(self)@ }),
    {
        self.now = now;
    }

    pub fn clock(&self) -> (now: u64)
        ensures
            now == self@.now,
    {
        self.now
    }

    pub fn last_edit(&self) -> (at: Option<u64>)
        ensures
            at == self@.last_edit,
    {
        self.last_edit
    }

    /// Count the document as edited now.
    pub fn touch(&mut self)
        requires
            old(self).wf(),
        ensures
            final(self).wf(),
            final(self)@ == (EditorView { last_edit: Some(old(self)@.now), ..old(self)@ }),
    {
        self.last_edit = Some(self.now);
    }

    pub fn retry_at(&self) -> (at: Option<u64>)
        ensures
            at == self@.retry_at,
    {
        self.retry_at
    }

    pub fn set_retry_at(&mut self, at: Option<u64>)
        requires
            old(self).wf(),
        ensures
            final(self).wf(),
            final(self)@ == (EditorView { retry_at: at, ..old(self)@ }),
    {
        self.retry_at = at;
    }

    /// The text of the document.
    pub fn text(&self) -> (text: String)
        ensures
            text@ == self@.doc.text,
    {
        rope_to_string(self.buffer.rope())
    }

    /// The blocks of the document, as far as they were parsed.
    pub fn known_blocks(&self) -> (blocks: &BlockIndex)
        ensures
            blocks@ == self@.blocks,
    {
        &self.blocks
    }

    /// The blocks of the document, parsed again where they are not those of the text.
    pub fn current_blocks(&mut self) -> (blocks: &BlockIndex)
        requires
            old(self).wf(),
        ensures
            final(self).wf(),
            final(self)@ == (EditorView {
                blocks: if old(self)@.blocks.version == Some(old(self)@.version) {
                    old(self)@.blocks
                } else {
                    old(self)@.blocks.rebuilt(old(self)@.doc.text, old(self)@.version)
                },
                ..old(self)@
            }),
            blocks@ == final(self)@.blocks,
            blocks.defs_ok(),
    {
        if !self.blocks.is_current(self.version) {
            self.blocks.rebuild_full(self.buffer.rope(), self.version);
        }
        &self.blocks
    }

    /// The last place at or before `byte` where a character begins, within the document.
    pub fn clamp_place(&self, byte: usize) -> (place: usize)
        ensures
            place == floor_boundary(self@.bytes(), least(byte as int, self@.bytes().len() as int)),
            boundary(self@.bytes(), place as int),
    {
        let ghost b = self@.bytes();
        let len: usize = self.buffer.len_bytes();
        proof {
            encode_utf8_valid_utf8(self@.doc.text);
            lemma_floor_boundary(b, least(byte as int, b.len() as int));
        }
        let mut i: usize = if byte < len {
            byte
        } else {
            len
        };
        let ghost goal = floor_boundary(b, i as int);
        while i > 0 && i < len && is_continuation(rope_byte(self.buffer.rope(), i))
            invariant
                b == self@.bytes(),
                len == b.len(),
                i <= len,
                floor_boundary(b, i as int) == goal,
            decreases i,
        {
            i -= 1;
        }
        i
    }

    /// Put the cursor at a place where a character begins.
    pub fn place_cursor(&mut self, byte: usize)
        requires
            old(self).wf(),
            boundary(old(self)@.bytes(), byte as int),
        ensures
            final(self).wf(),
            final(self)@ == old(self)@.at(byte as int),
    {
        self.cursor.byte = byte;
    }

    /// Set or clear the selection's anchor.
    pub fn set_anchor(&mut self, anchor: Option<usize>)
        requires
            old(self).wf(),
            match anchor {
                Some(a) => boundary(old(self)@.bytes(), a as int),
                None => true,
            },
        ensures
            final(self).wf(),
            final(self)@ == (EditorView { anchor, ..old(self)@ }),
    {
        self.anchor = anchor;
    }

    /// Refresh the goal column from the cursor.
    pub fn sync_goal(&mut self)
        requires
            old(self).wf(),
        ensures
            final(self).wf(),
            final(self)@ == old(self)@.synced(),
    {
        self.ensure_layout();
        self.cursor.sync_goal(&self.layout);
    }

    /// End the run of typing: the next edit is a step of its own.
    pub fn break_run(&mut self)
        requires
            old(self).wf(),
        ensures
            final(self).wf(),
            final(self)@ == old(self)@.run_ended(),
    {
        self.history.break_run();
    }

    /// Record where the cursor is as the end of the last edit.
    pub fn record_cursor(&mut self)
        requires
            old(self).wf(),
        ensures
            final(self).wf(),
            final(self)@ == old(self)@.cursor_recorded(),
    {
        let ghost h = self.history@;
        self.history.set_last_cursor_after(self.cursor.byte);
        proof {
            if h.undo.len() > 0 {
                let all = self.history@.undo;
                let top = h.undo.last();
                assert(all.drop_last() =~= h.undo.drop_last());
                assert(all.last().inverse().apply(self@.bytes()) == top.inverse().apply(
                    self@.bytes(),
                ));
                assert(all.last().apply(top.inverse().apply(self@.bytes())) == top.apply(
                    top.inverse().apply(self@.bytes()),
                ));
            }
        }
    }

    /// The selection as an ordered byte range, or `None` when empty.
    pub fn selection_range(&self) -> (range: Option<(usize, usize)>)
        ensures
            range == self@.selection(),
    {
        match self.anchor {
            Some(a) => if a < self.cursor.byte {
                Some((a, self.cursor.byte))
            } else if a > self.cursor.byte {
                Some((self.cursor.byte, a))
            } else {
                None
            },
            None => None,
        }
    }

    /// The line that the cursor is on.
    pub fn cursor_line(&self) -> (line: usize)
        requires
            self.wf(),
        ensures
            line == self@.cursor_line(),
            line < line_count(self@.bytes()),
    {
        proof {
            lemma_line_of(self@.bytes(), self.cursor.byte as int);
        }
        rope_byte_to_line(self.buffer.rope(), self.cursor.byte)
    }

    /// What stands on the cursor's line before it.
    pub fn line_before_cursor(&self) -> (text: String)
        requires
            self.wf(),
        ensures
            text@ == self@.line_before_cursor(),
    {
        let line: usize = self.cursor_line();
        let (begin, _end) = self.line_range(line);
        proof {
            self.lemma_ok();
            lemma_line_of(self@.bytes(), self.cursor.byte as int);
        }
        self.slice(begin, self.cursor.byte)
    }

    /// The number of lines.
    pub fn line_count(&self) -> (n: usize)
        ensures
            n == line_count(self@.bytes()),
            n >= 1,
    {
        proof {
            lemma_breaks_before(self@.bytes(), 0, self@.bytes().len() as int);
        }
        rope_len_lines(self.buffer.rope())
    }

    /// The byte at which a line begins.
    pub fn line_begin(&self, line: usize) -> (byte: usize)
        requires
            line <= line_count(self@.bytes()),
        ensures
            byte == line_start(self@.bytes(), line as int),
            boundary(self@.bytes(), byte as int),
    {
        proof {
            encode_utf8_valid_utf8(self@.doc.text);
            lemma_line_start_boundary(self@.bytes(), line as int);
        }
        rope_line_to_byte(self.buffer.rope(), line)
    }

    /// Byte range of a logical line, including its trailing newline.
    pub fn line_range(&self, line: usize) -> (range: (usize, usize))
        requires
            line < line_count(self@.bytes()),
        ensures
            (range.0 as int, range.1 as int) == self@.line_range(line as int),
            range.0 <= range.1,
            boundary(self@.bytes(), range.0 as int),
            boundary(self@.bytes(), range.1 as int),
    {
        let total: usize = self.line_count();
        proof {
            lemma_line_starts_grow(self@.bytes(), line as int, line + 1);
        }
        (self.line_begin(line), self.line_begin(line + 1))
    }

    /// A line with its line ending.
    pub fn line_text(&self, line: usize) -> (text: String)
        requires
            line < line_count(self@.bytes()),
        ensures
            encode_utf8(text@) == line_bytes(self@.bytes(), line as int),
    {
        rope_line(self.buffer.rope(), line)
    }

    /// A line without its line ending, and that ending.
    pub fn split_line(&self, line: usize) -> (parts: (String, String))
        requires
            line < line_count(self@.bytes()),
        ensures
            parts.0@ == self@.content(line as int),
            parts.1@ == self@.ending(line as int),
            boundary(self@.bytes(), self@.content_stop(line as int)),
            self@.content_stop(line as int) <= self@.bytes().len(),
    {
        let ghost bytes = self@.bytes();
        let text = rope_line(self.buffer.rope(), line);
        let b = text.as_str().as_bytes();
        let e: usize = content_length(b);
        let len: usize = b.len();
        proof {
            encode_utf8_valid_utf8(self@.doc.text);
            encode_utf8_valid_utf8(text@);
            lemma_boundary_ends(encode_utf8(text@));
            lemma_line_end_boundary(bytes, line as int);
            lemma_line_starts_grow(bytes, line as int, line + 1);
            let s = line_start(bytes, line as int);
            if e < len {
                assert(b@[e as int] == bytes[s + e]);
            }
            assert(boundary(encode_utf8(text@), e as int));
        }
        let content = slice(text.as_str(), 0, e).to_owned();
        let ending = slice(text.as_str(), e, len).to_owned();
        (content, ending)
    }

    /// A line without its line ending.
    pub fn line_without_eol(&self, line: usize) -> (text: String)
        requires
            line < line_count(self@.bytes()),
        ensures
            text@ == self@.content(line as int),
    {
        let (content, _ending) = self.split_line(line);
        content
    }

    /// Where the content of a line ends.
    pub fn content_stop(&self, line: usize) -> (byte: usize)
        requires
            line < line_count(self@.bytes()),
        ensures
            byte == self@.content_stop(line as int),
            boundary(self@.bytes(), byte as int),
            line_start(self@.bytes(), line as int) <= byte,
    {
        let (content, _ending) = self.split_line(line);
        let start: usize = self.line_begin(line);
        let len: usize = self.buffer.len_bytes();
        start + byte_length(content.as_str())
    }

    /// The line ending that the file uses.
    pub fn newline(&self) -> (ending: &'static str)
        ensures
            ending@ == self@.newline(),
    {
        self.buffer.newline()
    }

    /// The character at the cursor.
    pub fn char_at_cursor(&self) -> (c: Option<char>)
        requires
            self.wf(),
        ensures
            c == self@.char_at_cursor(),
    {
        let rope = self.buffer.rope();
        if self.cursor.byte < rope_len_bytes(rope) {
            let index: usize = rope_byte_to_char(rope, self.cursor.byte);
            proof {
                let text = self@.doc.text;
                lemma_char_index_at_boundary(text, self.cursor.byte as int, index as int);
                encode_utf8_decode_utf8(text.skip(index as int));
                assert(index < text.len()) by {
                    if index == text.len() {
                        assert(text.take(index as int) =~= text);
                    }
                }
            }
            Some(rope_char(rope, index))
        } else {
            None
        }
    }

    /// The matches of a query.
    pub fn search_matches(
        &mut self,
        query: &str,
        options: SearchOptions,
        scope: Option<(usize, usize)>,
    ) -> (out: Vec<SearchMatch>)
        requires
            old(self).wf(),
        ensures
            final(self).wf(),
            final(self)@ == old(self)@.after_search(SearchKey { query: query@, options, scope }),
            out@ == found(old(self)@.doc.text, SearchKey { query: query@, options, scope }),
            matches_fit(out@, old(self)@.bytes()),
    {
        let mut out: Vec<SearchMatch> = Vec::new();
        if query.is_empty() {
            return out;
        }
        if !(self.searched && same(self.query.as_str(), query) && self.options == options
            && self.scope == scope) {
            let text = self.text();
            let (matches, complaint) = find_matches(text.as_str(), query, options, scope);
            self.query = query.to_owned();
            self.options = options;
            self.scope = scope;
            self.matches = matches;
            self.complaint = complaint;
            self.searched = true;
            self.scans = self.scans.saturating_add(1);
        }
        let mut i: usize = 0;
        while i < self.matches.len()
            invariant
                i <= self.matches@.len(),
                out@ == self.matches@.take(i as int),
            decreases self.matches@.len() - i,
        {
            out.push(self.matches[i]);
            i += 1;
            assert(self.matches@.take(i as int) =~= self.matches@.take(i - 1).push(
                self.matches@[i - 1],
            ));
        }
        assert(self.matches@.take(i as int) =~= self.matches@);
        out
    }

    /// What was wrong with the last query.
    pub fn search_error(&self) -> (error: Option<String>)
        ensures
            opt_view(error) == self@.complaint,
    {
        match &self.complaint {
            Some(e) => Some(e.clone()),
            None => None,
        }
    }

    /// How often the text was searched.
    pub fn search_scans(&self) -> (n: u64)
        ensures
            n == self@.scans,
    {
        self.scans
    }

    /// Move the cursor, and nothing else.
    fn move_cursor(&mut self, motion: Motion, page: usize)
        requires
            old(self).wf(),
            old(self).layout@ == old(self)@.layout(),
        ensures
            final(self).cursor.byte == old(self)@.target(motion, page as int),
            final(self).cursor.goal_col == old(self).cursor.goal_col,
            boundary(old(self)@.bytes(), final(self).cursor.byte as int),
            *final(self) == (Editor { cursor: final(self).cursor, ..*old(self) }),
    {
        proof {
            encode_utf8_valid_utf8(self@.doc.text);
            lemma_boundary_ends(self@.bytes());
        }
        let rope = self.buffer.rope();
        match motion {
            Motion::Left => self.cursor.left(rope),
            Motion::Right => self.cursor.right(rope),
            Motion::Up => self.cursor.up(&self.layout),
            Motion::Down => self.cursor.down(&self.layout),
            Motion::LineStart => self.cursor.home(rope),
            Motion::LineEnd => self.cursor.end(rope),
            Motion::WordForward => self.cursor.word_forward(rope),
            Motion::WordBack => self.cursor.word_back(rope),
            Motion::DocStart => self.cursor.doc_start(),
            Motion::DocEnd => self.cursor.doc_end(rope),
            Motion::PageUp => self.cursor.page(&self.layout, page, false),
            Motion::PageDown => self.cursor.page(&self.layout, page, true),
        }
    }

    /// Apply a motion.
    pub fn do_motion(&mut self, motion: Motion, extend: bool, page: usize)
        requires
            old(self).wf(),
        ensures
            final(self).wf(),
            final(self)@ == old(self)@.moved(motion, extend, page as int),
    {
        proof {
            reveal(EditorView::moved);
        }
        let ghost before = self@;
        self.ensure_layout();
        let from: usize = self.cursor.byte;
        self.move_cursor(motion, page);
        if extend {
            if self.anchor.is_none() {
                self.anchor = Some(from);
            }
        } else {
            self.anchor = None;
        }
        self.history.break_run();
        assert(self.wf());
        let keep_goal = motion == Motion::Up || motion == Motion::Down || motion == Motion::PageUp
            || motion == Motion::PageDown;
        if !keep_goal {
            self.sync_goal();
        }
    }

    /// Replace byte range `[start, end)` with `text`, recording the reversible
    /// edit and leaving the cursor after the inserted text.
    pub fn replace_range(&mut self, start: usize, end: usize, text: &str)
        requires
            old(self).wf(),
            start <= end,
            boundary(old(self)@.bytes(), start as int),
            boundary(old(self)@.bytes(), end as int),
        ensures
            final(self).wf(),
            final(self)@ == old(self)@.replaced(start as int, end as int, text@, None),
    {
        self.replace_range_with_cursor(start, end, text, None);
    }

    /// Like [`Self::replace_range`], but lets smart editing place the cursor
    /// inside the inserted text while recording that position for redo.
    pub fn replace_range_with_cursor(
        &mut self,
        start: usize,
        end: usize,
        text: &str,
        cursor_after: Option<usize>,
    )
        requires
            old(self).wf(),
            start <= end,
            boundary(old(self)@.bytes(), start as int),
            boundary(old(self)@.bytes(), end as int),
        ensures
            final(self).wf(),
            final(self)@ == old(self)@.replaced(start as int, end as int, text@, cursor_after),
    {
        proof {
            reveal(EditorView::replaced);
            reveal(EditorView::changed);
        }
        let ghost before = self@;
        // A no-op "edit" must not reach the history: recording it would clear
        // the redo stack (destroying real redo state) for nothing.
        if end <= start && text.is_empty() {
            return;
        }
        let n: usize = byte_length(text);
        let kept: usize = self.buffer.len_bytes() - (end - start);
        if kept > (usize::MAX - 2) / 2 || n > (usize::MAX - 2) / 2 - kept
            || !self.history.has_room() {
            return;
        }
        let removed = self.buffer.slice(start, end);
        let cursor_before: usize = self.cursor.byte;
        proof {
            lemma_replaced_ok(before, start as int, end as int, text@, cursor_after);
            lemma_edited_bytes(before.doc.text, start as int, end as int, text@);
            if start == end {
                assert(before.bytes().subrange(start as int, end as int) =~= Seq::<u8>::empty());
                assert(encode_utf8(removed@) =~= Seq::<u8>::empty());
                encode_utf8_decode_utf8(removed@);
            }
        }
        let idle = match self.last_edit {
            Some(at) => self.now.saturating_sub(at) >= RUN_PAUSE,
            None => false,
        };
        self.swap_text(start, end, text);
        let wanted: usize = match cursor_after {
            Some(c) => c,
            None => start + n,
        };
        let place: usize = self.clamp_place(wanted);
        self.cursor.byte = place;
        if idle {
            self.history.break_run();
        }
        self.history.record(
            Edit {
                start,
                removed,
                inserted: text.to_owned(),
                cursor_before,
                cursor_after: place,
            },
        );
        self.anchor = None;
        let saved = self.history.at_saved_state();
        self.buffer.set_modified(!saved);
        assert(self@ == before.replaced(start as int, end as int, text@, cursor_after));
    }

    /// Replace text and bring everything that is derived from it up to date.
    fn swap_text(&mut self, start: usize, end: usize, text: &str)
        requires
            old(self).derived_ok(),
            start <= end,
            boundary(old(self)@.bytes(), start as int),
            boundary(old(self)@.bytes(), end as int),
            2 * (old(self)@.bytes().len() - (end - start) + byte_len(text@)) + 2 <= usize::MAX,
            old(self)@.wrap_width <= MAX_WRAP,
        ensures
            final(self).derived_ok(),
            final(self)@ == old(self)@.changed(
                edited_text(old(self)@.doc.text, start as int, end - start, text@),
                start as int,
                end as int,
                byte_len(text@) as int,
            ),
            final(self).history == old(self).history,
    {
        proof {
            reveal(EditorView::changed);
        }
        let ghost v = self@;
        let ghost before = self@.bytes();
        let ghost fresh = edited_text(v.doc.text, start as int, end - start, text@);
        let ghost after = encode_utf8(fresh);
        let n: usize = byte_length(text);
        proof {
            encode_utf8_valid_utf8(v.doc.text);
            encode_utf8_valid_utf8(text@);
            lemma_edited_bytes(v.doc.text, start as int, end as int, text@);
            lemma_splice_boundaries(before, start as int, end as int, text@);
            lemma_line_of(before, start as int);
            lemma_line_of(before, end as int);
            lemma_breaks_before(before, start as int, end as int);
        }
        let len: usize = self.buffer.len_bytes();
        let first: usize = rope_byte_to_line(self.buffer.rope(), start);
        let last: usize = rope_byte_to_line(self.buffer.rope(), end);
        let total_before: usize = rope_len_lines(self.buffer.rope());
        let lone_cr = start > 0 && rope_byte(self.buffer.rope(), start - 1) == 13 && !(start < len
            && rope_byte(self.buffer.rope(), start) == 10);
        self.change_buffer(start, end, text);
        assert(self.buffer@ == v.doc.with_text(fresh));
        let now: usize = self.buffer.len_bytes();
        let joins = lone_cr && start < now && rope_byte(self.buffer.rope(), start) == 10;
        assert(joins == joins_crlf(before, after, start as int)) by {
            if 0 < start {
                assert(before[start - 1] == 13 ==> (break_ends_at(before, start as int) <==> !(start
                    < before.len() && before[start as int] == 10)));
            }
        }
        self.version = self.version.saturating_add(1);
        self.last_edit = Some(self.now);
        self.retry_at = None;
        self.searched = false;
        let mut update = LineUpdate { touched_flags: 255, resynced_at: 0 };
        if joins {
            self.lines = LineIndex::build(self.buffer.rope());
            self.layout_dirty = true;
        } else {
            proof {
                lemma_edit_replaces_lines(before, start as int, end as int, encode_utf8(text@));
                lemma_line_of(after, start + n);
            }
            let new_last: usize = rope_byte_to_line(self.buffer.rope(), start + n);
            let ghost s = edit_splice(before, after, start as int, end as int, n as int);
            assert(s == splice_of(
                line_count(before),
                line_count(after),
                first as int,
                last - first + 1,
                new_last - first + 1,
            ));
            let total: usize = rope_len_lines(self.buffer.rope());
            let old_count: usize = last - first + 1;
            let new_count: usize = new_last - first + 1;
            self.patch_layout(first, old_count, new_count, Ghost(before), Ghost(s));
            update = self.lines.apply_edit(self.buffer.rope(), first, old_count, new_count);
            proof {
                lemma_incremental_index_is_fresh(before, after, s);
            }
        }
        self.blocks.apply_edit(self.buffer.rope(), first, &update, &self.lines, self.version);
        assert(update.touched_flags == touched_flags(
            before,
            after,
            start as int,
            end as int,
            n as int,
        ));
        assert(self@ == v.changed(fresh, start as int, end as int, n as int));
    }

    fn change_buffer(&mut self, start: usize, end: usize, text: &str)
        requires
            start <= end,
            boundary(old(self)@.bytes(), start as int),
            boundary(old(self)@.bytes(), end as int),
        ensures
            final(self).buffer@ == old(self).buffer@.with_text(
                edited_text(old(self)@.doc.text, start as int, end - start, text@),
            ),
            *final(self) == (Editor { buffer: final(self).buffer, ..*old(self) }),
    {
        let ghost v = self.buffer@;
        let ghost before = v.bytes();
        proof {
            encode_utf8_valid_utf8(v.text);
            lemma_edited_bytes(v.text, start as int, end as int, text@);
            lemma_edited_bytes(v.text, start as int, end as int, Seq::empty());
            lemma_splice_boundaries(before, start as int, end as int, Seq::empty());
            assert(encode_utf8(Seq::<char>::empty()) =~= Seq::<u8>::empty());
        }
        let ghost fresh = edited_text(v.text, start as int, end - start, text@);
        if end > start {
            self.buffer.remove(start, end);
        }
        let ghost mid = self.buffer@;
        proof {
            if start == end {
                assert(spliced(before, start as int, 0, Seq::empty()) =~= before);
            }
        }
        assert(mid.bytes() =~= spliced(before, start as int, end - start, Seq::empty()));
        if !text.is_empty() {
            proof {
                lemma_edited_bytes(mid.text, start as int, start as int, text@);
                assert(spliced(mid.bytes(), start as int, 0, encode_utf8(text@)) =~= spliced(
                    before,
                    start as int,
                    end - start,
                    encode_utf8(text@),
                ));
                lemma_bytes_injective(edited_text(mid.text, start as int, 0, text@), fresh);
            }
            self.buffer.insert(start, text);
        } else {
            proof {
                assert(text@ =~= Seq::empty());
                if start == end {
                    lemma_bytes_injective(v.text, fresh);
                }
            }
        }
        self.buffer.set_modified(true);
        assert(self.buffer@ == v.with_text(fresh));
    }

    /// Patch the layout incrementally only when it is current and built for
    /// this width; otherwise mark it dirty so that it is built again.
    fn patch_layout(
        &mut self,
        first: usize,
        old_count: usize,
        new_count: usize,
        before: Ghost<Seq<u8>>,
        s: Ghost<crate::line_index::Splice>,
    )
        requires
            old(self).layout.wf(),
            old(self).rows.wf(old(self).layout@),
            old(self).wrap_width <= MAX_WRAP,
            old(self).layout_width <= MAX_WRAP,
            !old(self).layout_dirty ==> old(self).layout@.bytes() == before@ && old(self).layout@
                == laid_out(
                old(self).layout@.text,
                old(self).layout_width as int,
                old(self).tab_width as int,
            ),
            lines_replaced(before@, old(self)@.bytes(), s@),
            s@ == splice_of(
                line_count(before@),
                line_count(old(self)@.bytes()),
                first as int,
                old_count as int,
                new_count as int,
            ),
            s@ == (Splice {
                start: first as int,
                removed: old_count as int,
                added: new_count as int,
            }),
            first < line_count(before@),
        ensures
            final(self).layout.wf(),
            final(self).rows.wf(final(self).layout@),
            final(self).layout_width == old(self).layout_width,
            !final(self).layout_dirty ==> final(self).layout@ == laid_out(
                final(self)@.doc.text,
                final(self).layout_width as int,
                final(self).tab_width as int,
            ),
            *final(self) == (Editor {
                layout: final(self).layout,
                rows: final(self).rows,
                layout_dirty: final(self).layout_dirty,
                ..*old(self)
            }),
    {
        let ghost after = self@.bytes();
        let rows: usize = self.layout.len();
        let len: usize = self.buffer.len_bytes();
        let ghost was = self.layout@;
        let ghost held = self.rows.lines();
        let current = !self.layout_dirty && self.layout_width == self.wrap_width;
        if current && len <= (usize::MAX - 2) / 2 && rows <= usize::MAX - 2 - 2 * len {
            proof {
                assert(contents_replaced(before@, after, s@)) by {
                    assert forall|l: int| 0 <= l < s@.start implies line_content(
                        #[trigger] line_bytes(before@, l),
                    ) == line_content(line_bytes(after, l)) by {}
                    assert forall|l: int|
                        s@.start + s@.added <= l < line_count(after) implies line_content(
                        #[trigger] line_bytes(after, l),
                    ) == line_content(line_bytes(before@, l - s@.added + s@.removed)) by {}
                }
                lemma_incremental_layout_is_fresh(self.layout@, self@.doc.text, s@);
            }
            self.layout.update_after_edit(
                self.buffer.rope(),
                self.wrap_width,
                self.tab_width,
                first,
                old_count,
                new_count,
            );
            self.rows.forget_edited(first, old_count, new_count);
            proof {
                lemma_kept_lines_are_right(held, was, self.layout@, s@, held.len() as int);
            }
        } else {
            self.layout_dirty = true;
        }
    }

    /// Insert `text`, replacing the selection if there is one.
    pub fn insert(&mut self, text: &str)
        requires
            old(self).wf(),
        ensures
            final(self).wf(),
            final(self)@ == old(self)@.inserted(text@),
    {
        match self.selection_range() {
            Some((s, e)) => self.replace_range(s, e, text),
            None => {
                let at: usize = self.cursor.byte;
                self.replace_range(at, at, text);
            },
        }
    }

    /// What backspace deletes.
    pub fn backspace_range(&self) -> (range: Option<(usize, usize)>)
        requires
            self.wf(),
        ensures
            match range {
                Some((s, e)) => self@.backspace_range() == Some((s as int, e as int)) && s <= e
                    && boundary(self@.bytes(), s as int) && boundary(self@.bytes(), e as int),
                None => self@.backspace_range() is None,
            },
    {
        if let Some((s, e)) = self.selection_range() {
            return Some((s, e));
        }
        if self.cursor.byte > 0 {
            let s: usize = prev_grapheme(self.buffer.rope(), self.cursor.byte);
            return Some((s, self.cursor.byte));
        }
        None
    }

    /// What delete deletes.
    pub fn delete_range(&self) -> (range: Option<(usize, usize)>)
        requires
            self.wf(),
        ensures
            match range {
                Some((s, e)) => self@.delete_range() == Some((s as int, e as int)) && s <= e
                    && boundary(self@.bytes(), s as int) && boundary(self@.bytes(), e as int),
                None => self@.delete_range() is None,
            },
    {
        if let Some((s, e)) = self.selection_range() {
            return Some((s, e));
        }
        if self.cursor.byte < self.buffer.len_bytes() {
            let e: usize = next_grapheme(self.buffer.rope(), self.cursor.byte);
            return Some((self.cursor.byte, e));
        }
        None
    }

    /// What copying takes.
    pub fn copy_range(&self) -> (range: (usize, usize))
        requires
            self.wf(),
        ensures
            (range.0 as int, range.1 as int) == self@.copy_range(),
            range.0 <= range.1,
            boundary(self@.bytes(), range.0 as int),
            boundary(self@.bytes(), range.1 as int),
    {
        match self.selection_range() {
            Some((s, e)) => (s, e),
            None => self.line_range(self.cursor_line()),
        }
    }

    /// The text between two places.
    pub fn slice(&self, start: usize, end: usize) -> (text: String)
        requires
            start <= end,
            boundary(self@.bytes(), start as int),
            boundary(self@.bytes(), end as int),
        ensures
            text@ == self@.slice(start as int, end as int),
            encode_utf8(text@) == self@.bytes().subrange(start as int, end as int),
    {
        let text = self.buffer.slice(start, end);
        proof {
            if start == end {
                assert(self@.bytes().subrange(start as int, end as int) =~= Seq::<u8>::empty());
                assert(encode_utf8(text@) =~= Seq::<u8>::empty());
                encode_utf8_decode_utf8(text@);
            }
        }
        text
    }

    /// Undo the last edit. Says whether there was one.
    pub fn undo(&mut self) -> (done: bool)
        requires
            old(self).wf(),
        ensures
            final(self).wf(),
            done == (old(self)@.history.undo.len() > 0),
            final(self)@ == old(self)@.undone(),
    {
        proof {
            reveal(EditorView::stepped);
            reveal(EditorView::changed);
        }
        let ghost v = self@;
        proof {
            lemma_stepping_ok(v);
        }
        match self.history.undo() {
            Some(e) => {
                proof {
                    let before = e@.inverse().apply(v.bytes());
                    lemma_inverse_restores(e@, before);
                    lemma_step_shape(v, e@.inverse());
                }
                let n: usize = byte_length(e.inserted.as_str());
                let len: usize = self.buffer.len_bytes();
                self.swap_text(e.start, e.start + n, e.removed.as_str());
                self.cursor.byte = e.cursor_before;
                self.anchor = None;
                let saved = self.history.at_saved_state();
                self.buffer.set_modified(!saved);
                assert(self@ == v.undone());
                true
            },
            None => false,
        }
    }

    /// Make the last undone edit again. Says whether there was one.
    pub fn redo(&mut self) -> (done: bool)
        requires
            old(self).wf(),
        ensures
            final(self).wf(),
            done == (old(self)@.history.redo.len() > 0),
            final(self)@ == old(self)@.redone(),
    {
        proof {
            reveal(EditorView::stepped);
            reveal(EditorView::changed);
        }
        let ghost v = self@;
        proof {
            lemma_stepping_ok(v);
        }
        match self.history.redo() {
            Some(e) => {
                proof {
                    lemma_step_shape(v, e@);
                }
                let n: usize = byte_length(e.removed.as_str());
                let len: usize = self.buffer.len_bytes();
                self.swap_text(e.start, e.start + n, e.inserted.as_str());
                self.cursor.byte = e.cursor_after;
                self.anchor = None;
                let saved = self.history.at_saved_state();
                self.buffer.set_modified(!saved);
                assert(self@ == v.redone());
                true
            },
            None => false,
        }
    }

    /// Put another document in place, with everything derived anew. Its history begins
    /// there; `unsaved` says that it is in no file.
    pub fn reset(&mut self, buffer: TextBuffer, unsaved: bool)
        requires
            old(self).wf(),
            2 * buffer@.bytes().len() + 2 <= usize::MAX,
        ensures
            final(self).wf(),
            final(self)@ == old(self)@.reset(
                buffer@,
                if unsaved {
                    HistoryView { saved_depth: None, ..HistoryView::fresh() }
                } else {
                    HistoryView::fresh()
                },
            ),
    {
        let mut history = History::new();
        if unsaved {
            history.mark_unsaved();
        }
        self.history = history;
        self.layout = Layout::build(buffer.rope(), self.wrap_width, self.tab_width);
        self.rows.clear();
        self.layout_width = self.wrap_width;
        self.layout_dirty = false;
        self.lines = LineIndex::build(buffer.rope());
        self.buffer = buffer;
        let place: usize = self.clamp_place(self.cursor.byte);
        self.cursor.byte = place;
        self.anchor = None;
        self.blocks = BlockIndex::new();
        self.version = self.version.saturating_add(1);
        self.retry_at = None;
        self.searched = false;
        assert(self.blocks@ =~= no_blocks());
    }

    /// Let the buffer take note of what happened to its file.
    pub fn set_buffer(&mut self, buffer: TextBuffer)
        requires
            old(self).wf(),
            buffer@.text == old(self)@.doc.text,
        ensures
            final(self).wf(),
            final(self)@ == (EditorView { doc: buffer@, ..old(self)@ }),
    {
        self.buffer = buffer;
    }

    /// Take note that the document was saved.
    pub fn mark_saved(&mut self)
        requires
            old(self).wf(),
        ensures
            final(self).wf(),
            final(self)@ == (EditorView {
                history: HistoryView {
                    open: false,
                    saved_depth: Some(old(self)@.history.depth()),
                    ..old(self)@.history
                },
                ..old(self)@
            }),
    {
        self.history.mark_saved();
    }
}

proof fn lemma_step_shape(v: EditorView, e: EditView)
    requires
        e.applies_to(v.bytes()),
        boundary(v.bytes(), e.start),
        boundary(v.bytes(), e.start + byte_len(e.removed)),
    ensures
        encode_utf8(
            edited_text(v.doc.text, e.start, byte_len(e.removed) as int, e.inserted),
        ).len() == v.bytes().len() - byte_len(e.removed) + byte_len(e.inserted),
{
    lemma_stepped_bytes(v, e, e.apply(v.bytes()));
}

fn is_continuation(b: u8) -> (yes: bool)
    ensures
        yes == is_continuation_byte(b),
{
    0x80 <= b && b <= 0xbf
}

} // verus!
