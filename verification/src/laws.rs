//! What holds of editing, whichever keys it is done with.

use vstd::prelude::*;
use vstd::utf8::*;

use crate::app::{AppView, Mode};
use crate::buffer::lemma_edited_bytes;
use crate::bytes::{boundary, lemma_boundary_at_ascii, lemma_valid_between, text_between};
use crate::editor::{lemma_floor_boundary, lemma_replaced_bytes, EditorView, Motion};
use crate::edits::{lemma_line_ending_cuts_a_line, splits_cleanly};
use crate::history::spliced;
use crate::layout::{
    cell_link, clusters_in_order, lemma_ascii_values, lemma_cell_bounds, lemma_line_end_boundary,
    lemma_line_reaching, lemma_rows_before, lemma_rows_cover, line_content, row_holding, row_link,
    rows_before, rows_of, MAX_WRAP,
};
use crate::list_marker::{bare_marker, marker_of};
use crate::line_index::most;
use crate::markdown::tokenizer::{content_end, lemma_content_end, lemma_content_end_is};
use crate::rope::{
    break_ends_at, breaks_before, lemma_breaks_before, lemma_line_of, lemma_line_start,
    lemma_line_start_boundary, lemma_line_starts_grow, line_bytes, line_count, line_start,
};
use crate::strings::{byte_len, has_char, lemma_bytes_concat};
use crate::table::{empty_cells, empty_row};
use crate::text::{next_cluster, prev_cluster};

verus! {

/// The line ending that is typed, in bytes.
pub(crate) proof fn lemma_newline_bytes(v: EditorView)
    ensures
        encode_utf8(v.newline()) == if v.doc.crlf {
            seq![13u8, 10u8]
        } else {
            seq![10u8]
        },
        v.newline().len() > 0,
{
    reveal_strlit("\n");
    reveal_strlit("\r\n");
    lemma_ascii_values(v.newline());
    if v.doc.crlf {
        assert(encode_utf8(v.newline()) =~= seq![13u8, 10u8]);
    } else {
        assert(encode_utf8(v.newline()) =~= seq![10u8]);
    }
}

/// Whether a line is the last one, or ends with a line feed or a carriage return.
pub open spec fn ends_plainly(b: Seq<u8>, line: int) -> bool {
    line + 1 == line_count(b) || line_bytes(b, line).last() == 10 || line_bytes(b, line).last()
        == 13
}

/// Where the content of a line ends, and that it is still on the line.
proof fn lemma_end_of_line(b: Seq<u8>, line: int)
    requires
        valid_utf8(b),
        0 <= line < line_count(b),
        ends_plainly(b, line),
    ensures
        ({
            let end = line_start(b, line) + content_end(line_bytes(b, line));
            &&& boundary(b, end)
            &&& 0 <= line_start(b, line) <= end <= line_start(b, line + 1) <= b.len()
            &&& breaks_before(b, end) == line
            &&& end > line_start(b, line) ==> b[end - 1] != 13 && b[end - 1] != 10
            &&& forall|i: int|
                end <= i < line_start(b, line + 1) ==> #[trigger] b[i] == 10 || b[i] == 13
        }),
{
    let whole = line_bytes(b, line);
    let s = line_start(b, line);
    let e = content_end(whole);
    lemma_content_end(whole);
    lemma_line_end_boundary(b, line);
    lemma_line_starts_grow(b, line, line + 1);
    lemma_line_start(b, line);
    lemma_line_start(b, line + 1);
    assert forall|i: int| s + e <= i < line_start(b, line + 1) implies #[trigger] b[i] == 10 || b[i]
        == 13 by {
        assert(whole[i - s] == b[i]);
    }
    if e > 0 {
        assert(whole[e - 1] == b[s + e - 1]);
    }
    lemma_breaks_before(b, s, s + e);
    lemma_line_of(b, s + e);
    if line + 1 < line_count(b) {
        lemma_line_starts_grow(b, line, line + 1);
        assert(whole.len() > 0);
        assert(e < whole.len());
        assert(breaks_before(b, s + e) < line + 1);
    } else {
        lemma_breaks_before(b, s + e, b.len() as int);
    }
}

/// The content of a line that was cut right behind its content.
proof fn lemma_content_of_cut(b: Seq<u8>, s: int, end: int, nl: Seq<u8>)
    requires
        0 <= s <= end <= b.len(),
        end > s ==> b[end - 1] != 13 && b[end - 1] != 10,
        forall|i: int| 0 <= i < nl.len() ==> #[trigger] nl[i] == 10 || nl[i] == 13,
    ensures
        line_content(b.subrange(s, end) + nl) == text_between(b, s, end),
{
    let whole = b.subrange(s, end) + nl;
    lemma_content_end_is(whole, end - s);
    assert(whole.subrange(0, end - s) =~= b.subrange(s, end));
}

/// What a line ending makes of the lines when it is put in right behind the content of one:
/// that line keeps its content, and an empty line follows it.
pub proof fn lemma_line_ending_behind_a_line(b: Seq<u8>, line: int, nl: Seq<u8>, l: int)
    requires
        valid_utf8(b),
        0 <= line < line_count(b),
        ends_plainly(b, line),
        nl == seq![10u8] || nl == seq![13u8, 10u8],
        splits_cleanly(b, line_start(b, line) + content_end(line_bytes(b, line)), nl),
        0 <= l < line_count(b),
    ensures
        ({
            let end = line_start(b, line) + content_end(line_bytes(b, line));
            let after = spliced(b, end, 0, nl);
            &&& line_count(after) == line_count(b) + 1
            &&& breaks_before(after, end + nl.len()) == line + 1
            &&& line_start(after, line + 1) == end + nl.len()
            &&& line_content(line_bytes(after, line)) == line_content(line_bytes(b, line))
            &&& line_content(line_bytes(after, line + 1)) == Seq::<char>::empty()
            &&& l < line ==> line_bytes(after, l) == line_bytes(b, l)
            &&& l > line ==> line_bytes(after, l + 1) == line_bytes(b, l)
        }),
{
    let s = line_start(b, line);
    let end = s + content_end(line_bytes(b, line));
    let after = spliced(b, end, 0, nl);
    lemma_end_of_line(b, line);
    lemma_line_ending_cuts_a_line(b, end, nl, l);
    let next = line_start(b, line + 1);
    lemma_content_of_cut(b, s, end, nl);
    let rest = b.subrange(end, next);
    assert forall|i: int| 0 <= i < rest.len() implies #[trigger] rest[i] == 10 || rest[i] == 13 by {
        assert(rest[i] == b[end + i]);
    }
    lemma_content_of_cut(b, s, end, rest);
    assert(b.subrange(s, end) + rest =~= line_bytes(b, line));
    lemma_content_of_cut(b, end, end, rest);
    assert(b.subrange(end, end) + rest =~= rest);
    assert(b.subrange(end, end) =~= Seq::<u8>::empty());
    assert(encode_utf8(Seq::<char>::empty()) =~= Seq::<u8>::empty());
    encode_utf8_decode_utf8(Seq::<char>::empty());
}

/// A motion without selecting puts the cursor where it leads, and ends the selection; the
/// document and its history stay.
#[verifier::spinoff_prover]
pub(crate) proof fn lemma_motion_only_moves(e: EditorView, motion: Motion, page: int)
    ensures
        ({
            let m = e.moved(motion, false, page);
            &&& m.cursor.byte == e.target(motion, page) as usize
            &&& m.doc == e.doc
            &&& m.selection() is None
            &&& m.anchor is None
            &&& forall|len: int| m.has_room(len) == e.has_room(len)
            &&& m.wrap_width == e.wrap_width
            &&& m.tab_width == e.tab_width
        }),
{
    reveal(EditorView::moved);
}

/// Text that is put in at the cursor, with nothing selected.
#[verifier::spinoff_prover]
pub(crate) proof fn lemma_typed_at_the_cursor(m: EditorView, at: int, text: Seq<char>)
    requires
        m.cursor.byte == at,
        boundary(m.bytes(), at),
        m.selection() is None,
        text.len() > 0,
        m.has_room((m.bytes().len() + byte_len(text)) as int),
    ensures
        m.inserted(text).bytes() == spliced(m.bytes(), at, 0, encode_utf8(text)),
        m.inserted(text).cursor.byte == at + byte_len(text),
{
    lemma_replaced_bytes(m, at, at, text);
}

/// A line ending can be put in behind a line, unless it is an empty one behind a carriage
/// return and the line ending is a line feed.
proof fn lemma_splits_behind_a_line(e: EditorView, line: int)
    requires
        0 <= line < line_count(e.bytes()),
        ends_plainly(e.bytes(), line),
        e.content(line).len() > 0 || e.doc.crlf || line_start(e.bytes(), line) == 0
            || e.bytes()[line_start(e.bytes(), line) - 1] != 13,
    ensures
        splits_cleanly(
            e.bytes(),
            line_start(e.bytes(), line) + content_end(line_bytes(e.bytes(), line)),
            encode_utf8(e.newline()),
        ),
{
    let b = e.bytes();
    let end = line_start(b, line) + content_end(line_bytes(b, line));
    encode_utf8_valid_utf8(e.doc.text);
    lemma_end_of_line(b, line);
    lemma_newline_bytes(e);
    if end > 0 && b[end - 1] == 13 {
        assert(end == line_start(b, line));
        lemma_line_start(b, line);
        assert(break_ends_at(b, end));
        let whole = line_bytes(b, line);
        assert(whole.subrange(0, 0) =~= Seq::<u8>::empty());
        assert(encode_utf8(Seq::<char>::empty()) =~= Seq::<u8>::empty());
        encode_utf8_decode_utf8(Seq::<char>::empty());
        assert(e.content(line).len() == 0);
    }
}

/// Opening a line below leaves the content of the cursor's line as it was, puts an empty
/// line directly behind it, and leaves the cursor on that line, ready for text. The other
/// lines stay as they were.
#[verifier::spinoff_prover]
pub proof fn lemma_a_line_is_opened_below(v: AppView, l: int)
    requires
        v.editor.ok(),
        ends_plainly(v.editor.bytes(), v.editor.cursor_line()),
        v.editor.content(v.editor.cursor_line()).len() > 0 || v.editor.doc.crlf || line_start(
            v.editor.bytes(),
            v.editor.cursor_line(),
        ) == 0 || v.editor.bytes()[line_start(v.editor.bytes(), v.editor.cursor_line()) - 1] != 13,
        v.editor.has_room((v.editor.bytes().len() + byte_len(v.editor.newline())) as int),
        0 <= l < line_count(v.editor.bytes()),
    ensures
        ({
            let line = v.editor.cursor_line();
            let w = v.line_opened(true);
            &&& w.editor.cursor_line() == line + 1
            &&& w.editor.cursor.byte == line_start(w.editor.bytes(), line + 1)
            &&& w.editor.content(line) == v.editor.content(line)
            &&& w.editor.content(line + 1) == Seq::<char>::empty()
            &&& line_count(w.editor.bytes()) == line_count(v.editor.bytes()) + 1
            &&& l < line ==> line_bytes(w.editor.bytes(), l) == line_bytes(v.editor.bytes(), l)
            &&& l > line ==> line_bytes(w.editor.bytes(), l + 1) == line_bytes(v.editor.bytes(), l)
            &&& w.desk.mode == Mode::Insert
        }),
{
    reveal(AppView::line_opened);
    let e = v.editor;
    let b = e.bytes();
    let line = e.cursor_line();
    encode_utf8_valid_utf8(e.doc.text);
    lemma_line_of(b, e.cursor.byte as int);
    lemma_breaks_before(b, 0, e.cursor.byte as int);
    lemma_end_of_line(b, line);
    lemma_newline_bytes(e);
    let end = line_start(b, line) + content_end(line_bytes(b, line));
    let m = e.moved(Motion::LineEnd, false, v.page());
    lemma_motion_only_moves(e, Motion::LineEnd, v.page());
    assert(e.target(Motion::LineEnd, v.page()) == end);
    lemma_splits_behind_a_line(e, line);
    lemma_typed_at_the_cursor(m, end, e.newline());
    lemma_line_ending_behind_a_line(b, line, encode_utf8(e.newline()), l);
}

/// A line without content is one row, which is at the beginning of the line.
proof fn lemma_rows_of_nothing(wrap: int, tab: int)
    requires
        clusters_in_order(Seq::empty()),
    ensures
        rows_of(Seq::empty(), wrap, tab).len() == 1,
        rows_of(Seq::empty(), wrap, tab)[0].cells.len() == 0,
        rows_of(Seq::empty(), wrap, tab)[0].byte_start == 0,
{
}

/// The beginning of a line is on the first of its rows.
proof fn lemma_first_row_holds_the_start(content: Seq<char>, wrap: int, tab: int)
    requires
        clusters_in_order(content),
        byte_len(content) <= usize::MAX,
        1 <= wrap <= 65535,
        1 <= tab,
    ensures
        row_holding(rows_of(content, wrap, tab), 0, 0) == 0,
{
    let rows = rows_of(content, wrap, tab);
    lemma_rows_cover(content, wrap, tab);
    if rows.len() > 1 {
        assert(row_link(rows, 0));
        let r = rows[0];
        lemma_cell_bounds(r.cells, r.byte_start, r.byte_end, r.width, 0);
        assert(cell_link(r.cells, r.byte_end, r.width, 0));
    }
}

/// One row up from the beginning of a line, below a line without content, is that line.
#[verifier::spinoff_prover]
proof fn lemma_up_to_an_empty_line(e: EditorView, line: int, page: int)
    requires
        0 <= line,
        line + 1 < line_count(e.bytes()),
        e.cursor.byte == line_start(e.bytes(), line + 1),
        e.content(line) == Seq::<char>::empty(),
        clusters_in_order(Seq::empty()),
        clusters_in_order(e.content(line + 1)),
        byte_len(e.content(line + 1)) <= usize::MAX,
        e.wrap_width <= MAX_WRAP,
    ensures
        e.target(Motion::Up, page) == line_start(e.bytes(), line),
{
    let b = e.bytes();
    let lay = e.layout();
    lemma_line_start(b, line + 1);
    lemma_rows_of_nothing(lay.wrap, lay.tab);
    lemma_first_row_holds_the_start(e.content(line + 1), lay.wrap, lay.tab);
    let counts = lay.counts;
    assert(counts.len() == line_count(b));
    assert(counts[line] == 1);
    let above = rows_before(counts, line);
    lemma_rows_before(counts, 0, line);
    lemma_rows_before(counts, line + 1, counts.len() as int);
    assert(rows_before(counts, line + 1) == above + 1);
    assert(lay.position(e.cursor.byte as int).0 == above + 1);
    lemma_line_reaching(counts, above, line, 0);
}

/// Opening a line above puts an empty line directly before the cursor's line, which keeps
/// its content, and leaves the cursor on that empty line, ready for text. The other lines
/// stay as they were.
#[verifier::spinoff_prover]
pub proof fn lemma_a_line_is_opened_above(v: AppView, l: int)
    requires
        v.editor.ok(),
        v.editor.doc.crlf || line_start(v.editor.bytes(), v.editor.cursor_line()) == 0
            || v.editor.bytes()[line_start(v.editor.bytes(), v.editor.cursor_line()) - 1] != 13,
        v.editor.has_room((v.editor.bytes().len() + byte_len(v.editor.newline())) as int),
        0 <= l < line_count(v.editor.bytes()),
        clusters_in_order(Seq::empty()),
        clusters_in_order(v.editor.content(v.editor.cursor_line())),
        byte_len(v.editor.content(v.editor.cursor_line())) <= usize::MAX,
    ensures
        ({
            let line = v.editor.cursor_line();
            let w = v.line_opened(false);
            &&& w.editor.cursor_line() == line
            &&& w.editor.cursor.byte == line_start(w.editor.bytes(), line)
            &&& w.editor.content(line) == Seq::<char>::empty()
            &&& line_bytes(w.editor.bytes(), line + 1) == line_bytes(v.editor.bytes(), line)
            &&& line_count(w.editor.bytes()) == line_count(v.editor.bytes()) + 1
            &&& l < line ==> line_bytes(w.editor.bytes(), l) == line_bytes(v.editor.bytes(), l)
            &&& l > line ==> line_bytes(w.editor.bytes(), l + 1) == line_bytes(v.editor.bytes(), l)
            &&& w.desk.mode == Mode::Insert
        }),
{
    reveal(AppView::line_opened);
    let e = v.editor;
    let b = e.bytes();
    let line = e.cursor_line();
    encode_utf8_valid_utf8(e.doc.text);
    lemma_line_of(b, e.cursor.byte as int);
    lemma_breaks_before(b, 0, e.cursor.byte as int);
    lemma_line_start(b, line);
    lemma_line_start_boundary(b, line);
    lemma_newline_bytes(e);
    let s = line_start(b, line);
    let nl = encode_utf8(e.newline());
    let m = e.moved(Motion::LineStart, false, v.page());
    lemma_motion_only_moves(e, Motion::LineStart, v.page());
    assert(e.target(Motion::LineStart, v.page()) == s);
    lemma_typed_at_the_cursor(m, s, e.newline());
    lemma_line_ending_cuts_a_line(b, s, nl, l);
    lemma_line_ending_cuts_a_line(b, s, nl, line);
    let w = m.inserted(e.newline());
    assert(b.subrange(s, s) =~= Seq::<u8>::empty());
    lemma_content_of_cut(b, s, s, nl);
    assert(encode_utf8(Seq::<char>::empty()) =~= Seq::<u8>::empty());
    encode_utf8_decode_utf8(Seq::<char>::empty());
    assert(w.content(line) == Seq::<char>::empty());
    assert(line_bytes(w.bytes(), line + 1) == line_bytes(b, line));
    lemma_replaced_keeps_the_geometry(m, s, s, e.newline());
    lemma_up_to_an_empty_line(w, line, v.page());
    lemma_motion_only_moves(w, Motion::Up, v.page());
    lemma_line_start(w.bytes(), line);
}

proof fn lemma_replaced_keeps_the_geometry(m: EditorView, start: int, end: int, text: Seq<char>)
    ensures
        m.replaced(start, end, text, None).wrap_width == m.wrap_width,
        m.replaced(start, end, text, None).tab_width == m.tab_width,
{
    reveal(EditorView::replaced);
    reveal(EditorView::changed);
}

// --- typing ---

/// Text that is put in replaces what is selected, or, with nothing selected, goes in at the
/// cursor; the cursor is behind it, and nothing is selected any more.
#[verifier::spinoff_prover]
pub proof fn lemma_text_is_put_in(e: EditorView, text: Seq<char>)
    requires
        e.ok(),
        text.len() > 0,
        e.has_room((e.bytes().len() + byte_len(text)) as int),
    ensures
        ({
            let w = e.inserted(text);
            let (s, end) = match e.selection() {
                Some((s, end)) => (s as int, end as int),
                None => (e.cursor.byte as int, e.cursor.byte as int),
            };
            &&& w.bytes() == e.bytes().take(s) + encode_utf8(text) + e.bytes().skip(end)
            &&& w.cursor.byte == s + byte_len(text)
            &&& w.selection() is None
        }),
{
    let (s, end) = match e.selection() {
        Some((s, end)) => (s as int, end as int),
        None => (e.cursor.byte as int, e.cursor.byte as int),
    };
    lemma_replaced_bytes(e, s, end, text);
}

/// A character that has to do with no pair is typed as it is.
#[verifier::spinoff_prover]
pub proof fn lemma_a_character_is_typed(e: EditorView, c: char)
    requires
        c != '*' && c != '_' && c != '~' && c != '`' && c != '"' && c != '\'' && c != '(' && c != ')'
            && c != '[' && c != ']' && c != '{' && c != '}' && c != '<' && c != '>',
    ensures
        e.typed(c) == e.inserted(seq![c]),
{
    reveal(EditorView::typed);
}

/// A character that opens a pair, typed over a selection, puts the selection between the two
/// of the pair, with the cursor behind it.
#[verifier::spinoff_prover]
pub proof fn lemma_a_pair_is_put_around_the_selection(e: EditorView, open: char, close: char)
    requires
        e.ok(),
        e.selection() is Some,
        open == '(' && close == ')' || open == '[' && close == ']' || open == '{' && close == '}'
            || open == '<' && close == '>' || open == close && (open == '*' || open == '_' || open
            == '~' || open == '`' || open == '"' || open == '\''),
        e.has_room((e.bytes().len() + 8) as int),
    ensures
        ({
            let (s, end) = e.selection()->0;
            let w = e.typed(open);
            &&& w.bytes() == e.bytes().take(s as int) + encode_utf8(seq![open]) + e.bytes().subrange(
                s as int,
                end as int,
            ) + encode_utf8(seq![close]) + e.bytes().skip(end as int)
            &&& w.selection() is None
        }),
{
    reveal(EditorView::typed);
    let (s, end) = e.selection()->0;
    let b = e.bytes();
    let inner = e.slice(s as int, end as int);
    let text = (seq![open] + inner).push(close);
    assert(text =~= seq![open] + inner + seq![close]);
    lemma_bytes_concat(seq![open] + inner, seq![close]);
    lemma_bytes_concat(seq![open], inner);
    crate::editor::lemma_slice_bytes(e.doc.text, s as int, end as int);
    lemma_ascii_values(seq![open]);
    lemma_ascii_values(seq![close]);
    lemma_replaced_bytes(e, s as int, end as int, text);
    assert(e.replaced(s as int, end as int, text, None).bytes() =~= b.take(s as int) + encode_utf8(
        seq![open],
    ) + b.subrange(s as int, end as int) + encode_utf8(seq![close]) + b.skip(end as int));
}

/// A replacement that says where the cursor goes.
#[verifier::spinoff_prover]
pub(crate) proof fn lemma_replaced_at(
    e: EditorView,
    start: int,
    end: int,
    text: Seq<char>,
    place: usize,
)
    requires
        boundary(e.bytes(), start),
        boundary(e.bytes(), end),
        start <= end,
        start < end || text.len() > 0,
        e.has_room(e.bytes().len() - (end - start) + byte_len(text)),
        boundary(spliced(e.bytes(), start, end - start, encode_utf8(text)), place as int),
    ensures
        ({
            let w = e.replaced(start, end, text, Some(place));
            &&& w.bytes() == spliced(e.bytes(), start, end - start, encode_utf8(text))
            &&& w.cursor.byte == place
            &&& w.anchor is None
        }),
{
    reveal(EditorView::replaced);
    reveal(EditorView::changed);
    let w = e.replaced(start, end, text, Some(place));
    lemma_edited_bytes(e.doc.text, start, end, text);
    encode_utf8_valid_utf8(w.doc.text);
    lemma_floor_boundary(w.bytes(), place as int);
}

/// A character that opens a pair, typed with nothing selected where it does not stand already,
/// brings what closes it, with the cursor between the two.
#[verifier::spinoff_prover]
pub proof fn lemma_a_pair_is_typed(e: EditorView, open: char, close: char)
    requires
        e.ok(),
        e.selection() is None,
        open == '(' && close == ')' || open == '[' && close == ']' || open == '{' && close == '}',
        e.has_room((e.bytes().len() + 2) as int),
    ensures
        ({
            let at = e.cursor.byte as int;
            let w = e.typed(open);
            &&& w.bytes() == e.bytes().take(at) + seq![open as u8, close as u8] + e.bytes().skip(at)
            &&& w.cursor.byte == at + 1
            &&& w.selection() is None
        }),
{
    reveal(EditorView::typed);
    let at = e.cursor.byte as int;
    let b = e.bytes();
    let text = seq![open, close];
    lemma_ascii_values(seq![open]);
    lemma_ascii_values(text);
    encode_utf8_valid_utf8(e.doc.text);
    assert(encode_utf8(text) =~= seq![open as u8, close as u8]);
    let after = spliced(b, at, 0, encode_utf8(text));
    assert(after =~= b.take(at) + seq![open as u8, close as u8] + b.skip(at));
    lemma_edited_bytes(e.doc.text, at, at, text);
    encode_utf8_valid_utf8(crate::buffer::edited_text(e.doc.text, at, 0, text));
    lemma_boundary_at_ascii(after, at + 1);
    lemma_replaced_at(e, at, at, text, (at + 1) as usize);
}

/// What closes a pair, typed right before itself, is passed over: nothing is put in.
#[verifier::spinoff_prover]
pub proof fn lemma_a_closer_is_passed_over(e: EditorView, c: char)
    requires
        e.selection() is None,
        e.char_at_cursor() == Some(c),
        c == ')' || c == ']' || c == '}' || c == '>' || c == '*' || c == '_' || c == '~' || c == '`'
            || c == '"' || c == '\'',
    ensures
        e.typed(c).doc == e.doc,
        e.typed(c).cursor.byte == next_cluster(e.doc.text, e.cursor.byte as int) as usize,
{
    reveal(EditorView::typed);
    lemma_motion_only_moves(e, Motion::Right, 1);
}

/// Enter on a line that is part of no list, or in code, cuts the line in two at the cursor,
/// and the cursor begins the second of them.
#[verifier::spinoff_prover]
pub proof fn lemma_enter_cuts_the_line(e: EditorView, hard_breaks: bool, l: int)
    requires
        e.ok(),
        e.selection() is None,
        e.in_fenced_code(e.cursor_line()) || marker_of(e.content(e.cursor_line())) is None
            && !bare_marker(e.content(e.cursor_line())),
        e.has_room((e.bytes().len() + byte_len(e.newline())) as int),
        splits_cleanly(e.bytes(), e.cursor.byte as int, encode_utf8(e.newline())),
        0 <= l < line_count(e.bytes()),
    ensures
        ({
            let line = e.cursor_line();
            let at = e.cursor.byte as int;
            let b = e.bytes();
            let w = e.newline_entered(hard_breaks);
            &&& line_count(w.bytes()) == line_count(b) + 1
            &&& w.cursor_line() == line + 1
            &&& w.cursor.byte == line_start(w.bytes(), line + 1)
            &&& line_bytes(w.bytes(), line) == b.subrange(line_start(b, line), at) + encode_utf8(
                e.newline(),
            )
            &&& line_bytes(w.bytes(), line + 1) == b.subrange(at, line_start(b, line + 1))
            &&& l < line ==> line_bytes(w.bytes(), l) == line_bytes(b, l)
            &&& l > line ==> line_bytes(w.bytes(), l + 1) == line_bytes(b, l)
        }),
{
    reveal(EditorView::newline_entered);
    let at = e.cursor.byte as int;
    encode_utf8_valid_utf8(e.doc.text);
    lemma_newline_bytes(e);
    lemma_typed_at_the_cursor(e, at, e.newline());
    lemma_line_ending_cuts_a_line(e.bytes(), at, encode_utf8(e.newline()), l);
}

/// Backspace deletes what is selected, or the cluster before the cursor, and Delete what is
/// selected or the cluster behind it, if that is no line ending; the cursor is where it was
/// deleted. At the ends of the document there is nothing to delete.
#[verifier::spinoff_prover]
pub proof fn lemma_deleting(e: EditorView, back: bool)
    requires
        e.ok(),
        e.has_room(e.bytes().len() as int),
    ensures
        ({
            let b = e.bytes();
            let at = e.cursor.byte as int;
            let w = if back {
                e.removed(e.backspace_range())
            } else {
                e.removed(e.delete_range())
            };
            let (s, end) = match e.selection() {
                Some((s, end)) => (s as int, end as int),
                None => if back {
                    (prev_cluster(e.doc.text, at), at)
                } else {
                    (at, next_cluster(e.doc.text, at))
                },
            };
            &&& e.selection() is None && back && at == 0 ==> w == e
            &&& e.selection() is None && !back && at == b.len() ==> w == e
            &&& s < end && boundary(b, s) && boundary(b, end) && !has_char(
                text_between(b, s, end),
                '\n',
            ) && (e.selection() is Some || at != if back {
                0
            } else {
                b.len() as int
            }) ==> w.bytes() == b.take(s) + b.skip(end) && w.cursor.byte == s && w.selection() is None
        }),
{
    reveal(EditorView::removed);
    let b = e.bytes();
    let at = e.cursor.byte as int;
    let (s, end) = match e.selection() {
        Some((s, end)) => (s as int, end as int),
        None => if back {
            (prev_cluster(e.doc.text, at), at)
        } else {
            (at, next_cluster(e.doc.text, at))
        },
    };
    let none = Seq::<char>::empty();
    assert(encode_utf8(none) =~= Seq::<u8>::empty());
    if s < end && boundary(b, s) && boundary(b, end) {
        lemma_replaced_bytes(e, s, end, none);
        assert(e.replaced(s, end, none, None).bytes() =~= b.take(s) + b.skip(end));
    }
}

// --- the rows of tables ---

/// A deletion within the document, in a step of its own.
#[verifier::spinoff_prover]
proof fn lemma_cut_in_a_step(e: EditorView, s: int, end: int)
    requires
        boundary(e.bytes(), s),
        boundary(e.bytes(), end),
        s < end,
        e.has_room(e.bytes().len() as int),
    ensures
        e.run_ended().replaced(s, end, Seq::empty(), None).run_ended().bytes() == e.bytes().take(s)
            + e.bytes().skip(end),
{
    let none = Seq::<char>::empty();
    assert(encode_utf8(none) =~= Seq::<u8>::empty());
    lemma_replaced_bytes(e.run_ended(), s, end, none);
    assert(e.run_ended().replaced(s, end, none, None).bytes() =~= e.bytes().take(s)
        + e.bytes().skip(end));
}

/// Where a line begins and ends are places where characters begin.
pub(crate) proof fn lemma_line_bounds(e: EditorView, line: int)
    requires
        0 <= line < line_count(e.bytes()),
    ensures
        boundary(e.bytes(), line_start(e.bytes(), line)),
        boundary(e.bytes(), line_start(e.bytes(), line + 1)),
        0 <= line_start(e.bytes(), line) <= line_start(e.bytes(), line + 1) <= e.bytes().len(),
        line + 1 < line_count(e.bytes()) ==> line_start(e.bytes(), line) < line_start(
            e.bytes(),
            line + 1,
        ),
{
    encode_utf8_valid_utf8(e.doc.text);
    lemma_line_start_boundary(e.bytes(), line);
    lemma_line_start_boundary(e.bytes(), line + 1);
    lemma_line_starts_grow(e.bytes(), line, line + 1);
}

/// A line is its content and its ending.
#[verifier::spinoff_prover]
pub(crate) proof fn lemma_line_parts(e: EditorView, line: int)
    requires
        0 <= line < line_count(e.bytes()),
    ensures
        encode_utf8(e.content(line)) + encode_utf8(e.ending(line)) == line_bytes(e.bytes(), line),
        byte_len(e.content(line)) == content_end(line_bytes(e.bytes(), line)),
{
    let b = e.bytes();
    let whole = line_bytes(b, line);
    let s = line_start(b, line);
    let c = content_end(whole);
    encode_utf8_valid_utf8(e.doc.text);
    lemma_line_bounds(e, line);
    lemma_line_end_boundary(b, line);
    lemma_content_end(whole);
    lemma_valid_between(b, s, s + c);
    lemma_valid_between(b, s + c, line_start(b, line + 1));
    assert(whole.subrange(0, c) =~= b.subrange(s, s + c));
    assert(whole.subrange(c, whole.len() as int) =~= b.subrange(s + c, line_start(b, line + 1)));
    decode_utf8_encode_utf8(b.subrange(s, s + c));
    decode_utf8_encode_utf8(b.subrange(s + c, line_start(b, line + 1)));
    assert(b.subrange(s, s + c) + b.subrange(s + c, line_start(b, line + 1)) =~= whole);
}

/// Deleting a row of a table takes out the line of the cursor, and nothing else; the header
/// and the line below it cannot be deleted.
#[verifier::spinoff_prover]
pub proof fn lemma_a_row_is_deleted(e: EditorView)
    requires
        e.ok(),
        e.table() is Some,
        e.has_room(e.bytes().len() as int),
        line_start(e.bytes(), e.cursor_line()) < e.bytes().len(),
    ensures
        ({
            let b = e.bytes();
            let line = e.cursor_line();
            let w = e.row_deleted().0;
            if line <= (e.table()->0).separator_line {
                w == e
            } else {
                w.bytes() == b.take(line_start(b, line)) + b.skip(line_start(b, line + 1))
            }
        }),
{
    reveal(EditorView::row_deleted);
    let b = e.bytes();
    let line = e.cursor_line();
    lemma_line_of(b, e.cursor.byte as int);
    lemma_breaks_before(b, 0, e.cursor.byte as int);
    lemma_line_bounds(e, line);
    lemma_line_start(b, line + 1);
    lemma_cut_in_a_step(e, line_start(b, line), line_start(b, line + 1));
}

/// Two lines are as long when they are exchanged.
#[verifier::spinoff_prover]
proof fn lemma_exchanged_length(e: EditorView, first: int)
    requires
        0 <= first,
        first + 2 <= line_count(e.bytes()),
    ensures
        byte_len(e.lines_exchanged(first)) == line_start(e.bytes(), first + 2) - line_start(
            e.bytes(),
            first,
        ),
{
    let (c1, e1) = (e.content(first), e.ending(first));
    let (c2, e2) = (e.content(first + 1), e.ending(first + 1));
    lemma_line_bounds(e, first);
    lemma_line_bounds(e, first + 1);
    lemma_line_parts(e, first);
    lemma_line_parts(e, first + 1);
    lemma_bytes_concat(c2 + e1 + c1, e2);
    lemma_bytes_concat(c2 + e1, c1);
    lemma_bytes_concat(c2, e1);
}

/// Moving a row of a table exchanges it with the row below (or above), and nothing else; each
/// line ending stays where it is. The header and the line below it stay at the top, and the
/// last row cannot be moved down.
#[verifier::spinoff_prover]
pub proof fn lemma_a_row_is_moved(e: EditorView, down: bool)
    requires
        e.ok(),
        e.table() is Some,
        e.has_room(e.bytes().len() as int),
        (e.table()->0).end_line < line_count(e.bytes()),
    ensures
        ({
            let b = e.bytes();
            let line = e.cursor_line();
            let info = e.table()->0;
            let w = e.row_moved(down).0;
            let first = if down {
                line
            } else {
                line - 1
            };
            if line <= info.separator_line || down && line >= info.end_line || !down && line
                <= info.separator_line + 1 {
                w == e
            } else {
                w.bytes() == b.take(line_start(b, first)) + encode_utf8(
                    e.content(first + 1) + e.ending(first) + e.content(first) + e.ending(first + 1),
                ) + b.skip(line_start(b, first + 2))
            }
        }),
{
    reveal(EditorView::row_moved);
    let b = e.bytes();
    let line = e.cursor_line();
    let info = e.table()->0;
    let first = if down {
        line
    } else {
        line - 1
    };
    if !(line <= info.separator_line || down && line >= info.end_line || !down && line
        <= info.separator_line + 1) {
        lemma_line_of(b, e.cursor.byte as int);
        lemma_breaks_before(b, 0, e.cursor.byte as int);
        lemma_line_bounds(e, first);
        lemma_line_bounds(e, first + 1);
        let text = e.lines_exchanged(first);
        lemma_exchanged_length(e, first);
        let (s, end) = (line_start(b, first), line_start(b, first + 2));
        lemma_replaced_bytes(e.run_ended(), s, end, text);
        assert(spliced(b, s, end - s, encode_utf8(text)) =~= b.take(s) + encode_utf8(text) + b.skip(
            end,
        ));
    }
}

/// Inserting a row puts a line of empty cells behind the line of the cursor, or, in the
/// header, behind the line below it, and nothing else: as many as the widest row has, with
/// the indentation and the outer pipes of the line that it is put behind.
#[verifier::spinoff_prover]
pub proof fn lemma_a_row_is_inserted(e: EditorView)
    requires
        e.ok(),
        e.table() is Some,
        (e.table()->0).separator_line < line_count(e.bytes()),
        e.has_room(
            (e.bytes().len() + byte_len(
                e.newline() + empty_row(
                    e.content(most(e.cursor_line(), (e.table()->0).separator_line as int)),
                    (e.table()->0).columns as int,
                ) + e.newline(),
            )) as int,
        ),
    ensures
        ({
            let b = e.bytes();
            let info = e.table()->0;
            let base = if e.cursor_line() > info.separator_line {
                e.cursor_line()
            } else {
                info.separator_line as int
            };
            let at = line_start(b, base + 1);
            let row = empty_row(e.content(base), info.columns as int);
            let w = e.row_inserted().0;
            w.bytes() == b.take(at) + (if e.ending(base).len() > 0 {
                Seq::empty()
            } else {
                encode_utf8(e.newline())
            }) + encode_utf8(row) + encode_utf8(e.newline()) + b.skip(at)
        }),
{
    reveal(EditorView::row_inserted);
    let b = e.bytes();
    let info = e.table()->0;
    let base = most(e.cursor_line(), info.separator_line as int);
    let at = line_start(b, base + 1);
    let row = empty_row(e.content(base), info.columns as int);
    let nl = e.newline();
    lemma_line_of(b, e.cursor.byte as int);
    lemma_breaks_before(b, 0, e.cursor.byte as int);
    lemma_line_bounds(e, base);
    lemma_newline_bytes(e);
    lemma_bytes_concat(nl + row, nl);
    lemma_bytes_concat(nl, row);
    lemma_bytes_concat(row, nl);
    let text = if e.ending(base).len() > 0 {
        row + nl
    } else {
        nl + row + nl
    };
    lemma_replaced_bytes(e.run_ended(), at, at, text);
    assert(spliced(b, at, 0, encode_utf8(text)) =~= b.take(at) + (if e.ending(base).len() > 0 {
        Seq::empty()
    } else {
        encode_utf8(nl)
    }) + encode_utf8(row) + encode_utf8(nl) + b.skip(at));
}

/// How many of the first characters of a text are pipes.
pub open spec fn pipes_in(s: Seq<char>, n: int) -> int
    decreases n,
{
    if n <= 0 {
        0
    } else {
        pipes_in(s, n - 1) + if s[n - 1] == '|' {
            1int
        } else {
            0int
        }
    }
}

proof fn lemma_pipes_in_prefix(a: Seq<char>, s: Seq<char>, n: int)
    requires
        0 <= n <= a.len() <= s.len(),
        forall|i: int| 0 <= i < n ==> a[i] == s[i],
    ensures
        pipes_in(a, n) == pipes_in(s, n),
    decreases n,
{
    if n > 0 {
        lemma_pipes_in_prefix(a, s, n - 1);
    }
}

/// An empty row is blank but for its pipes, and has one between every two cells, and one at
/// each end where the sample has one.
#[verifier::spinoff_prover]
pub proof fn lemma_empty_cells_are_blank(head: Seq<char>, trailing: bool, count: int, n: int)
    requires
        0 <= n <= count,
    ensures
        ({
            let row = empty_cells(head, trailing, count, n);
            &&& head.len() <= row.len()
            &&& row.take(head.len() as int) == head
            &&& forall|i: int| head.len() <= i < row.len() ==> #[trigger] row[i] == ' ' || row[i] == '|'
            &&& pipes_in(row, row.len() as int) == pipes_in(head, head.len() as int) + n - if n
                == count && n > 0 && !trailing {
                1int
            } else {
                0int
            }
        }),
    decreases n,
{
    let row = empty_cells(head, trailing, count, n);
    if n > 0 {
        lemma_empty_cells_are_blank(head, trailing, count, n - 1);
        let less = empty_cells(head, trailing, count, n - 1);
        let wide = less.push(' ').push(' ');
        lemma_pipes_in_prefix(less, wide, less.len() as int);
        let m = less.len() as int;
        assert(pipes_in(wide, m + 1) == pipes_in(wide, m));
        assert(pipes_in(wide, m + 2) == pipes_in(wide, m + 1));
        if n < count || trailing {
            lemma_pipes_in_prefix(wide, row, wide.len() as int);
        }
        assert(row.take(head.len() as int) =~= less.take(head.len() as int));
        assert forall|i: int| head.len() <= i < row.len() implies #[trigger] row[i] == ' ' || row[i]
            == '|' by {
            if i < less.len() {
                assert(row[i] == less[i]);
            }
        }
    } else {
        assert(row.take(head.len() as int) =~= head);
    }
}

} // verus!
