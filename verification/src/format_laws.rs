//! What the formatting commands do to a document.

use vstd::prelude::*;
use vstd::utf8::*;

use crate::action::Action;
use crate::app::{AppView, Mode};
use crate::bytes::{boundary, lemma_boundary_ends, text_between};
use crate::editor::{lemma_replaced_bytes, lemma_slice_bytes, EditorView};
use crate::formatting::{
    heading_cycled, heading_line, lemma_headings_cycle, marks_toggled, prefix_toggled, task_toggled,
};
use crate::history::spliced;
use crate::laws::{lemma_line_bounds, lemma_line_parts, lemma_replaced_at, lemma_text_is_put_in};
use crate::layout::lemma_ascii_values;
use crate::line_index::least;
use crate::list_marker::{lemma_bullet_is_read, lemma_spaces_stop, list_space, marker_of, spaces_end};
use crate::markdown::tokenizer::content_end;
use crate::rope::{line_bytes, line_start};
use crate::strings::{byte_len, lemma_bytes_concat, occurs_at, trim_end, trim_start, white_space, without_eol};

verus! {

/// The command that puts a marker around the selection.
pub open spec fn marks(action: Action, marker: Seq<char>) -> bool {
    ||| action == Action::Bold && marker == "**"@
    ||| action == Action::Italic && marker == "*"@
    ||| action == Action::Strikethrough && marker == "~~"@
    ||| action == Action::InlineCode && marker == "`"@
}

#[verifier::spinoff_prover]
proof fn lemma_marking_runs(v: AppView, action: Action, marker: Seq<char>)
    requires
        v.desk.mode != Mode::Read,
        marks(action, marker),
    ensures
        v.ran(action).0.editor == v.editor.inline_toggled(marker),
{
    reveal(AppView::ran);
    reveal(AppView::text_command);
}

proof fn lemma_markers(action: Action, marker: Seq<char>)
    requires
        marks(action, marker),
    ensures
        0 < marker.len() <= 2,
        marker.len() <= byte_len(marker) <= 8,
{
    reveal_strlit("**");
    reveal_strlit("*");
    reveal_strlit("~~");
    reveal_strlit("`");
    assert(marker =~= seq![marker[0]] || marker =~= seq![marker[0]] + seq![marker[1]]);
    crate::line_input::lemma_one_char(marker[0]);
    lemma_not_empty(seq![marker[0]]);
    if marker.len() == 2 {
        crate::line_input::lemma_one_char(marker[1]);
        lemma_not_empty(seq![marker[1]]);
        lemma_bytes_concat(seq![marker[0]], seq![marker[1]]);
    }
}

proof fn lemma_not_empty(s: Seq<char>)
    requires
        s.len() > 0,
    ensures
        byte_len(s) > 0,
{
    if byte_len(s) == 0 {
        assert(encode_utf8(s) =~= encode_utf8(Seq::<char>::empty()));
        encode_utf8_decode_utf8(s);
        encode_utf8_decode_utf8(Seq::<char>::empty());
    }
}

/// What is selected is put between two markers, where it is not between them already.
#[verifier::spinoff_prover]
pub proof fn lemma_the_selection_is_marked(
    v: AppView,
    action: Action,
    marker: Seq<char>,
    s: usize,
    e: usize,
)
    requires
        v.desk.mode != Mode::Read,
        marks(action, marker),
        v.editor.ok(),
        v.editor.selection() == Some((s, e)),
        ({
            let t = text_between(v.editor.bytes(), s as int, e as int);
            ||| t.len() < 2 * marker.len()
            ||| t.take(marker.len() as int) != marker
            ||| t.skip(t.len() - marker.len()) != marker
        }),
        v.editor.has_room((v.editor.bytes().len() + 2 * byte_len(marker)) as int),
    ensures
        ({
            let b = v.editor.bytes();
            v.ran(action).0.editor.bytes() == b.take(s as int) + encode_utf8(marker) + b.subrange(
                s as int,
                e as int,
            ) + encode_utf8(marker) + b.skip(e as int)
        }),
{
    lemma_marking_runs(v, action, marker);
    lemma_markers(action, marker);
    reveal(EditorView::inline_toggled);
    let b = v.editor.bytes();
    let t = text_between(b, s as int, e as int);
    lemma_slice_bytes(v.editor.doc.text, s as int, e as int);
    let n = t.len() as int;
    let m = marker.len() as int;
    if n >= 2 * m {
        assert(t.subrange(0, m) =~= t.take(m));
        assert(t.subrange(n - m, n) =~= t.skip(n - m));
    }
    assert(marks_toggled(t, marker) == marker + t + marker);
    lemma_bytes_concat(marker, t);
    lemma_bytes_concat(marker + t, marker);
    lemma_replaced_bytes(v.editor.run_ended(), s as int, e as int, marker + t + marker);
}

/// What is selected between two markers loses them.
#[verifier::spinoff_prover]
pub proof fn lemma_the_selection_is_unmarked(
    v: AppView,
    action: Action,
    marker: Seq<char>,
    inner: Seq<char>,
    s: usize,
    e: usize,
)
    requires
        v.desk.mode != Mode::Read,
        marks(action, marker),
        v.editor.ok(),
        v.editor.selection() == Some((s, e)),
        text_between(v.editor.bytes(), s as int, e as int) == marker + inner + marker,
        v.editor.has_room(v.editor.bytes().len() as int),
    ensures
        ({
            let b = v.editor.bytes();
            v.ran(action).0.editor.bytes() == b.take(s as int) + encode_utf8(inner) + b.skip(
                e as int,
            )
        }),
{
    lemma_marking_runs(v, action, marker);
    lemma_markers(action, marker);
    reveal(EditorView::inline_toggled);
    let b = v.editor.bytes();
    let t = text_between(b, s as int, e as int);
    lemma_slice_bytes(v.editor.doc.text, s as int, e as int);
    let n = t.len() as int;
    let m = marker.len() as int;
    assert(t.subrange(0, m) =~= marker);
    assert(t.subrange(n - m, n) =~= marker);
    assert(t.subrange(m, n - m) =~= inner);
    assert(marks_toggled(t, marker) == inner);
    lemma_bytes_concat(marker, inner);
    lemma_bytes_concat(marker + inner, marker);
    lemma_replaced_bytes(v.editor.run_ended(), s as int, e as int, inner);
}

/// With nothing selected, two markers are put in with the cursor between them.
#[verifier::spinoff_prover]
pub proof fn lemma_markers_are_put_in(v: AppView, action: Action, marker: Seq<char>)
    requires
        v.desk.mode != Mode::Read,
        marks(action, marker),
        v.editor.ok(),
        v.editor.selection() is None,
        v.editor.has_room((v.editor.bytes().len() + 2 * byte_len(marker)) as int),
    ensures
        ({
            let b = v.editor.bytes();
            let at = v.editor.cursor.byte as int;
            let w = v.ran(action).0.editor;
            &&& w.bytes() == b.take(at) + encode_utf8(marker) + encode_utf8(marker) + b.skip(at)
            &&& w.cursor.byte == at + byte_len(marker)
            &&& w.selection() is None
        }),
{
    lemma_marking_runs(v, action, marker);
    lemma_markers(action, marker);
    reveal(EditorView::inline_toggled);
    let b = v.editor.bytes();
    let at = v.editor.cursor.byte as int;
    lemma_bytes_concat(marker, marker);
    let all = spliced(b, at, 0, encode_utf8(marker + marker));
    encode_utf8_valid_utf8(marker);
    lemma_boundary_ends(encode_utf8(marker));
    assert(all[at + byte_len(marker)] == encode_utf8(marker)[0]);
    lemma_replaced_at(
        v.editor.run_ended(),
        at,
        at,
        marker + marker,
        (at + byte_len(marker)) as usize,
    );
    assert(all =~= b.take(at) + encode_utf8(marker) + encode_utf8(marker) + b.skip(at));
}

/// What is selected becomes the text of a link, with the cursor where its target goes.
#[verifier::spinoff_prover]
pub proof fn lemma_the_selection_is_linked(v: AppView, s: usize, e: usize)
    requires
        v.desk.mode != Mode::Read,
        v.editor.ok(),
        v.editor.selection() == Some((s, e)),
        v.editor.has_room((v.editor.bytes().len() + 4) as int),
    ensures
        ({
            let b = v.editor.bytes();
            let w = v.ran(Action::Link).0.editor;
            &&& w.bytes() == b.take(s as int) + seq![0x5bu8] + b.subrange(s as int, e as int)
                + seq![0x5du8, 0x28u8, 0x29u8] + b.skip(e as int)
            &&& w.cursor.byte == e + 3
        }),
{
    reveal(AppView::ran);
    reveal(AppView::text_command);
    reveal(EditorView::link_inserted);
    let b = v.editor.bytes();
    let t = text_between(b, s as int, e as int);
    lemma_slice_bytes(v.editor.doc.text, s as int, e as int);
    let text = "["@ + t + "]()"@;
    lemma_link_text(t);
    let all = spliced(b, s as int, e - s, encode_utf8(text));
    assert(all[e + 3] == 0x29u8);
    assert(byte_len(text) == e - s + 4);
    lemma_replaced_at(v.editor.run_ended(), s as int, e as int, text, (e + 3) as usize);
    assert(all =~= b.take(s as int) + seq![0x5bu8] + b.subrange(s as int, e as int)
        + seq![0x5du8, 0x28u8, 0x29u8] + b.skip(e as int));
}

#[verifier::spinoff_prover]
proof fn lemma_link_text(t: Seq<char>)
    ensures
        encode_utf8("["@ + t + "]()"@) == seq![0x5bu8] + encode_utf8(t) + seq![0x5du8, 0x28u8, 0x29u8],
{
    reveal_strlit("[");
    reveal_strlit("]()");
    lemma_bytes_concat("["@, t);
    lemma_bytes_concat("["@ + t, "]()"@);
    lemma_ascii_values("["@);
    lemma_ascii_values("]()"@);
    assert(encode_utf8("["@) =~= seq![0x5bu8]);
    assert(encode_utf8("]()"@) =~= seq![0x5du8, 0x28u8, 0x29u8]);
}

/// The line of the cursor has other content, and the rest of the document stays.
pub open spec fn line_becomes(e: EditorView, w: EditorView, content: Seq<char>) -> bool {
    let b = e.bytes();
    let l = e.cursor_line();
    let stop = line_start(b, l) + content_end(line_bytes(b, l));
    w.bytes() == b.take(line_start(b, l)) + encode_utf8(content) + b.skip(stop)
}

#[verifier::spinoff_prover]
proof fn lemma_line_replaced(e: EditorView, body: Seq<char>)
    requires
        e.ok(),
        body.len() > 0 || e.content(e.cursor_line()).len() > 0,
        e.has_room((e.bytes().len() + byte_len(body)) as int),
    ensures
        line_becomes(e, e.line_replaced(body), body),
{
    let b = e.bytes();
    let l = e.cursor_line();
    let (start, end) = e.line_range(l);
    let text = body + e.ending(l);
    encode_utf8_valid_utf8(e.doc.text);
    crate::rope::lemma_line_of(b, e.cursor.byte as int);
    lemma_line_bounds(e, l);
    lemma_line_parts(e, l);
    lemma_bytes_concat(body, e.ending(l));
    let place = (start as usize).saturating_add(
        least(e.cursor.byte - start, byte_len(without_eol(text)) as int) as usize,
    );
    lemma_replaced_anywhere(e.run_ended(), start, end, text, place);
    let c = content_end(line_bytes(b, l));
    assert(encode_utf8(e.ending(l)) =~= b.subrange(start + c, end)) by {
        assert(line_bytes(b, l) =~= b.subrange(start, end));
        assert forall|i: int| 0 <= i < end - start - c implies encode_utf8(e.ending(l))[i] == b[start
            + c + i] by {
            assert((encode_utf8(e.content(l)) + encode_utf8(e.ending(l)))[c + i] == encode_utf8(
                e.ending(l),
            )[i]);
        }
    }
    assert(spliced(b, start, end - start, encode_utf8(text)) =~= b.take(start) + encode_utf8(body)
        + b.skip(start + content_end(line_bytes(b, l))));
}

#[verifier::spinoff_prover]
proof fn lemma_replaced_anywhere(e: EditorView, start: int, end: int, text: Seq<char>, place: usize)
    requires
        boundary(e.bytes(), start),
        boundary(e.bytes(), end),
        start <= end,
        start < end || text.len() > 0,
        e.has_room(e.bytes().len() - (end - start) + byte_len(text)),
    ensures
        e.replaced(start, end, text, Some(place)).bytes() == spliced(
            e.bytes(),
            start,
            end - start,
            encode_utf8(text),
        ),
{
    reveal(EditorView::replaced);
    reveal(EditorView::changed);
    crate::buffer::lemma_edited_bytes(e.doc.text, start, end, text);
}

/// What a line is indented by: spaces and tabs only.
pub open spec fn indents(s: Seq<char>) -> bool {
    forall|i: int| 0 <= i < s.len() ==> (#[trigger] s[i]) == ' ' || s[i] == '\t'
}

proof fn lemma_indent_ends(indent: Seq<char>, rest: Seq<char>)
    requires
        indents(indent),
        rest.len() == 0 || !list_space(rest[0]),
    ensures
        spaces_end(indent + rest, 0) == indent.len(),
        (indent + rest).take(indent.len() as int) == indent,
        (indent + rest).skip(indent.len() as int) == rest,
{
    let s = indent + rest;
    assert forall|j: int| 0 <= j < indent.len() implies list_space(#[trigger] s[j]) by {
        assert(s[j] == indent[j]);
    }
    lemma_spaces_stop(s, 0, indent.len() as int);
    assert(s.take(indent.len() as int) =~= indent);
    assert(s.skip(indent.len() as int) =~= rest);
}

/// The command that puts a prefix before a line.
pub open spec fn prefixes(action: Action, prefix: Seq<char>) -> bool {
    ||| action == Action::ToggleQuote && prefix == "> "@
    ||| action == Action::ToggleBullet && prefix == "- "@
}

#[verifier::spinoff_prover]
proof fn lemma_prefixing_runs(v: AppView, action: Action, prefix: Seq<char>)
    requires
        v.desk.mode != Mode::Read,
        prefixes(action, prefix),
    ensures
        v.ran(action).0.editor == v.editor.line_replaced(
            prefix_toggled(v.editor.content(v.editor.cursor_line()), prefix),
        ),
        prefix.len() == 2,
        !list_space(prefix[0]),
{
    reveal(AppView::ran);
    reveal(AppView::text_command);
    reveal(EditorView::line_prefix_toggled);
    reveal_strlit("> ");
    reveal_strlit("- ");
}

/// A quote or a bullet goes behind the indentation of a line that has none.
#[verifier::spinoff_prover]
pub proof fn lemma_a_prefix_is_put_on(
    v: AppView,
    action: Action,
    prefix: Seq<char>,
    indent: Seq<char>,
    text: Seq<char>,
)
    requires
        v.desk.mode != Mode::Read,
        prefixes(action, prefix),
        v.editor.ok(),
        v.editor.content(v.editor.cursor_line()) == indent + text,
        indents(indent),
        text.len() == 0 || !list_space(text[0]),
        text.len() < 2 || text.take(2) != prefix,
        v.editor.has_room(
            (v.editor.bytes().len() + byte_len(indent + prefix + text)) as int,
        ),
    ensures
        line_becomes(v.editor, v.ran(action).0.editor, indent + prefix + text),
{
    lemma_prefixing_runs(v, action, prefix);
    lemma_indent_ends(indent, text);
    if text.len() >= 2 {
        assert(text.subrange(0, 2) =~= text.take(2));
    }
    assert(!occurs_at(text, prefix, 0));
    lemma_line_replaced(v.editor, indent + prefix + text);
}

/// A quote or a bullet behind the indentation of a line is taken off.
#[verifier::spinoff_prover]
pub proof fn lemma_a_prefix_is_taken_off(
    v: AppView,
    action: Action,
    prefix: Seq<char>,
    indent: Seq<char>,
    text: Seq<char>,
)
    requires
        v.desk.mode != Mode::Read,
        prefixes(action, prefix),
        v.editor.ok(),
        v.editor.content(v.editor.cursor_line()) == indent + (prefix + text),
        indents(indent),
        v.editor.has_room((v.editor.bytes().len() + byte_len(indent + text)) as int),
    ensures
        line_becomes(v.editor, v.ran(action).0.editor, indent + text),
{
    lemma_prefixing_runs(v, action, prefix);
    let rest = prefix + text;
    assert(rest[0] == prefix[0]);
    lemma_indent_ends(indent, rest);
    assert(rest.subrange(0, 2) =~= prefix);
    assert(rest.skip(2) =~= text);
    lemma_line_replaced(v.editor, indent + text);
}

/// The heading of a line goes one level down, and after the sixth it is none.
#[verifier::spinoff_prover]
pub proof fn lemma_the_heading_is_cycled(v: AppView, indent: Seq<char>, level: int, text: Seq<char>)
    requires
        v.desk.mode != Mode::Read,
        v.editor.ok(),
        v.editor.content(v.editor.cursor_line()) == heading_line(indent, level, text),
        indents(indent),
        text.len() > 0,
        !white_space(text[0]),
        text[0] != '#',
        0 <= level <= 6,
        v.editor.has_room(
            (v.editor.bytes().len() + byte_len(
                heading_line(
                    indent,
                    if level == 6 {
                        0
                    } else {
                        level + 1
                    },
                    text,
                ),
            )) as int,
        ),
    ensures
        line_becomes(
            v.editor,
            v.ran(Action::CycleHeading).0.editor,
            heading_line(
                indent,
                if level == 6 {
                    0
                } else {
                    level + 1
                },
                text,
            ),
        ),
{
    reveal(AppView::ran);
    reveal(AppView::text_command);
    reveal(EditorView::line_heading_cycled);
    lemma_headings_cycle(indent, level, text);
    lemma_line_replaced(v.editor, heading_cycled(heading_line(indent, level, text)));
}

#[verifier::spinoff_prover]
proof fn lemma_task_runs(v: AppView)
    requires
        v.desk.mode != Mode::Read,
    ensures
        v.ran(Action::ToggleTask).0.editor == v.editor.line_replaced(
            task_toggled(v.editor.content(v.editor.cursor_line())),
        ),
{
    reveal(AppView::ran);
    reveal(AppView::text_command);
    reveal(EditorView::line_task_toggled);
}

/// A line that is no item of a list becomes a task that is not done.
#[verifier::spinoff_prover]
pub proof fn lemma_a_line_becomes_a_task(v: AppView, indent: Seq<char>, text: Seq<char>)
    requires
        v.desk.mode != Mode::Read,
        v.editor.ok(),
        v.editor.content(v.editor.cursor_line()) == indent + text,
        indents(indent),
        text.len() == 0 || !list_space(text[0]) && text[0] != '-' && text[0] != '*' && text[0] != '+'
            && !('0' <= text[0] <= '9'),
        v.editor.has_room((v.editor.bytes().len() + byte_len(indent + "- [ ] "@ + text)) as int),
    ensures
        line_becomes(v.editor, v.ran(Action::ToggleTask).0.editor, indent + "- [ ] "@ + text),
{
    lemma_task_runs(v);
    lemma_indent_ends(indent, text);
    let s = indent + text;
    assert(marker_of(s) is None) by {
        reveal_with_fuel(crate::list_marker::digits_end, 2);
        if text.len() > 0 {
            assert(s[indent.len() as int] == text[0]);
        }
    }
    reveal_strlit("- [ ] ");
    lemma_line_replaced(v.editor, indent + "- [ ] "@ + text);
}

/// An item with a checkbox behind its bullet is done where it was not, and not where it was;
/// one without gets a checkbox that is not ticked.
#[verifier::spinoff_prover]
pub proof fn lemma_an_item_is_ticked(
    v: AppView,
    indent: Seq<char>,
    mark: char,
    text: Seq<char>,
    ticked: char,
)
    requires
        v.desk.mode != Mode::Read,
        v.editor.ok(),
        mark == '-' || mark == '*' || mark == '+',
        ticked == ' ' || ticked == 'x' || ticked == 'X',
        indents(indent),
        v.editor.content(v.editor.cursor_line()) == indent + (seq![mark, ' ', '[', ticked, ']', ' ']
            + text),
        v.editor.has_room(
            (2 * v.editor.bytes().len() + byte_len(
                indent + (seq![mark, ' ', '[', ' ', ']', ' '] + text),
            ) + byte_len(indent + (seq![mark, ' ', '[', 'x', ']', ' '] + text))) as int,
        ),
    ensures
        line_becomes(
            v.editor,
            v.ran(Action::ToggleTask).0.editor,
            indent + (seq![
                mark,
                ' ',
                '[',
                if ticked == ' ' {
                    'x'
                } else {
                    ' '
                },
                ']',
                ' ',
            ] + text),
        ),
{
    lemma_task_runs(v);
    let rest = seq![mark, ' ', '[', ticked, ']', ' '] + text;
    let s = indent + rest;
    let n = indent.len() as int;
    let now = if ticked == ' ' {
        'x'
    } else {
        ' '
    };
    let out = indent + (seq![mark, ' ', '[', now, ']', ' '] + text);
    lemma_indent_ends(indent, rest);
    assert(s[n] == mark && s[n + 1] == ' ' && s[n + 2] == '[' && s[n + 3] == ticked && s[n + 4]
        == ']' && s[n + 5] == ' ');
    assert(spaces_end(s, n + 2) == n + 2);
    assert(s.subrange(n + 1, n + 2).len() == 1);
    assert(task_toggled(s) =~= out);
    lemma_line_replaced(v.editor, out);
}

proof fn lemma_something_is_left(s: Seq<char>)
    requires
        s.len() > 0,
        !white_space(s[0]),
    ensures
        trim_end(s).len() > 0,
    decreases s.len(),
{
    if white_space(s.last()) {
        lemma_something_is_left(s.drop_last());
    }
}

/// Enter in an item of a list begins another: behind the line ending come the indentation
/// and the bullet of the item, and what was behind the cursor.
#[verifier::spinoff_prover]
pub proof fn lemma_a_list_goes_on(
    e: EditorView,
    hard_breaks: bool,
    indent: Seq<char>,
    mark: char,
    text: Seq<char>,
)
    requires
        e.ok(),
        e.selection() is None,
        !e.in_fenced_code(e.cursor_line()),
        mark == '-' || mark == '*' || mark == '+',
        indents(indent),
        text.len() > 0,
        !white_space(text[0]),
        !list_space(text[0]),
        text[0] != '[',
        e.content(e.cursor_line()) == indent.push(mark) + seq![' '] + text,
        e.cursor.byte >= line_start(e.bytes(), e.cursor_line()) + indent.len() + 2,
        e.has_room(
            (e.bytes().len() + byte_len(e.newline() + (indent.push(mark) + seq![' ']))) as int,
        ),
    ensures
        ({
            let b = e.bytes();
            let at = e.cursor.byte as int;
            let w = e.newline_entered(hard_breaks);
            let begun = encode_utf8(e.newline() + (indent.push(mark) + seq![' ']));
            &&& w.bytes() == b.take(at) + begun + b.skip(at)
            &&& w.cursor.byte == at + begun.len()
        }),
{
    reveal(EditorView::newline_entered);
    let spacing = seq![' '];
    let prefix = indent.push(mark) + spacing;
    let line = prefix + text;
    assert(line[prefix.len() as int] == text[0]);
    assert forall|j: int| 0 <= j < indent.len() implies list_space(#[trigger] indent[j]) by {}
    lemma_bullet_is_read(indent, mark, spacing, text);
    assert(line.skip(prefix.len() as int) =~= text);
    assert(trim_start(text) == text);
    lemma_something_is_left(text);
    lemma_text_is_put_in(e, e.newline() + prefix);
}

/// Enter in a task begins another, which is not done.
#[verifier::spinoff_prover]
pub proof fn lemma_tasks_go_on(
    e: EditorView,
    hard_breaks: bool,
    indent: Seq<char>,
    mark: char,
    ticked: char,
    text: Seq<char>,
)
    requires
        e.ok(),
        e.selection() is None,
        !e.in_fenced_code(e.cursor_line()),
        mark == '-' || mark == '*' || mark == '+',
        ticked == ' ' || ticked == 'x' || ticked == 'X',
        indents(indent),
        text.len() > 0,
        !white_space(text[0]),
        !list_space(text[0]),
        e.content(e.cursor_line()) == indent.push(mark) + seq![' '] + (seq!['[', ticked, ']', ' ']
            + text),
        e.cursor.byte >= line_start(e.bytes(), e.cursor_line()) + indent.len() + 6,
        e.has_room(
            (e.bytes().len() + byte_len(e.newline() + (indent.push(mark) + " [ ] "@))) as int,
        ),
    ensures
        ({
            let b = e.bytes();
            let at = e.cursor.byte as int;
            let w = e.newline_entered(hard_breaks);
            let begun = encode_utf8(e.newline() + (indent.push(mark) + " [ ] "@));
            &&& w.bytes() == b.take(at) + begun + b.skip(at)
            &&& w.cursor.byte == at + begun.len()
        }),
{
    reveal(EditorView::newline_entered);
    reveal_strlit(" [ ] ");
    let spacing = seq![' '];
    let prefix = indent.push(mark) + spacing;
    let rest = seq!['[', ticked, ']', ' '] + text;
    let line = prefix + rest;
    let p = prefix.len() as int;
    assert(line[p] == '[' && line[p + 1] == ticked && line[p + 2] == ']' && line[p + 3] == ' '
        && line[p + 4] == text[0]);
    assert forall|j: int| 0 <= j < indent.len() implies list_space(#[trigger] indent[j]) by {}
    lemma_bullet_is_read(indent, mark, spacing, rest);
    lemma_spaces_stop(line, p + 3, p + 4);
    assert(line.skip(p + 4) =~= text);
    assert(trim_start(text) == text);
    lemma_something_is_left(text);
    lemma_text_is_put_in(e, e.newline() + (indent.push(mark) + " [ ] "@));
}

/// Enter in an item of which there is nothing yet leaves the list: the bullet goes, and the
/// indentation stays.
#[verifier::spinoff_prover]
pub proof fn lemma_a_list_is_left(e: EditorView, indent: Seq<char>, mark: char)
    requires
        e.ok(),
        e.selection() is None,
        !e.in_fenced_code(e.cursor_line()),
        mark == '-' || mark == '*' || mark == '+',
        indents(indent),
        e.content(e.cursor_line()) == indent.push(mark) + seq![' '],
        e.cursor.byte >= line_start(e.bytes(), e.cursor_line()) + indent.len() + 2,
        e.has_room((e.bytes().len() + byte_len(indent)) as int),
    ensures
        line_becomes(e, e.newline_entered(false), indent),
{
    reveal(EditorView::newline_entered);
    let b = e.bytes();
    let l = e.cursor_line();
    let spacing = seq![' '];
    let prefix = indent.push(mark) + spacing;
    let none = Seq::<char>::empty();
    assert(prefix + none =~= prefix);
    assert forall|j: int| 0 <= j < indent.len() implies list_space(#[trigger] indent[j]) by {}
    lemma_bullet_is_read(indent, mark, spacing, none);
    assert(prefix.skip(prefix.len() as int) =~= none);
    encode_utf8_valid_utf8(e.doc.text);
    crate::rope::lemma_line_of(b, e.cursor.byte as int);
    lemma_line_bounds(e, l);
    lemma_line_parts(e, l);
    crate::layout::lemma_line_end_boundary(b, l);
    lemma_not_empty(prefix);
    let s = line_start(b, l);
    let c = content_end(line_bytes(b, l));
    lemma_replaced_bytes(e, s, s + c, indent);
    assert(spliced(b, s, c, encode_utf8(indent)) =~= b.take(s) + encode_utf8(indent) + b.skip(s + c));
}

} // verus!
