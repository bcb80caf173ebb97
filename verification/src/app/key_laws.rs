//! What each key comes to.

use vstd::prelude::*;

use crate::action::Action;
use crate::app::keys::{global_action, standard_chord, vim_motion_of, Chord};
use crate::app::{AppView, Desk, EffectView, Mode, Preset};
use crate::bytes::{boundary, text_between};
use crate::cursor::{next_word, prev_word};
use crate::editor::{lemma_replaced_bytes, EditorView, Motion};
use crate::layout::total_of;
use crate::line_input::{Key, KeyCode};
use crate::markdown::tokenizer::content_end;
use crate::rope::{
    lemma_breaks_before, lemma_line_of, lemma_line_start_boundary, lemma_line_starts_grow,
    line_bytes, line_start,
};
use crate::strings::has_char;
use crate::text::{cluster_end, cluster_start};

verus! {

/// Whether the document has the keys: nothing is open over it, it is being edited, and no
/// table is edited row by row.
pub open spec fn at_the_document(v: AppView) -> bool {
    &&& v.prompt is None
    &&& v.palette is None
    &&& v.outline is None
    &&& v.diagnostics is None
    &&& v.recent_picker is None
    &&& v.desk.menu is None
    &&& v.desk.mode != Mode::Read
    &&& !v.desk.table_mode
}

/// A key on its own, or with modifiers.
pub open spec fn pressed(code: KeyCode, control: bool, shift: bool, alt: bool) -> Key {
    Key { code, control, shift, alt, command: false }
}

/// Whether all that a key did is to move the cursor: the document stays, the cursor is at
/// `byte`, and what is selected is nothing, or, where the key selects, everything from where
/// the selection began to the cursor.
pub open spec fn went(v: AppView, key: Key, byte: int, select: bool) -> bool {
    let (w, effect) = v.handled(key);
    &&& w.editor.doc == v.editor.doc
    &&& w.editor.history.undo == v.editor.history.undo
    &&& w.editor.history.redo == v.editor.history.redo
    &&& w.editor.cursor.byte == byte as usize
    &&& w.editor.anchor == if select {
        match v.editor.anchor {
            Some(a) => Some(a),
            None => Some(v.editor.cursor.byte),
        }
    } else {
        None
    }
    &&& w.desk.mode == v.desk.mode
    &&& w.register == v.register
    &&& effect == EffectView::Nothing
}

/// The cluster before the cursor begins here.
pub open spec fn one_left(e: EditorView) -> int {
    if e.cursor.byte == 0 {
        0
    } else {
        cluster_start(e.doc.text, e.cursor.byte) as int
    }
}

/// The cluster at the cursor ends here.
pub open spec fn one_right(e: EditorView) -> int {
    if e.cursor.byte >= e.bytes().len() {
        e.bytes().len() as int
    } else {
        cluster_end(e.doc.text, e.cursor.byte) as int
    }
}

/// The line of the cursor begins here.
pub open spec fn line_begins(e: EditorView) -> int {
    line_start(e.bytes(), e.cursor_line())
}

/// The line of the cursor ends here, before its line ending.
pub open spec fn line_stops(e: EditorView) -> int {
    line_start(e.bytes(), e.cursor_line()) + content_end(line_bytes(e.bytes(), e.cursor_line()))
}

/// What is some rows above the cursor (or below it), in the column that it keeps to, or as
/// far as there are rows.
pub open spec fn rows_off(e: EditorView, rows: int) -> int {
    let last = total_of(e.layout().counts) - 1;
    let row = e.layout().position(e.cursor.byte as int).0 + rows;
    e.layout().byte_at(
        if row < 0 {
            0
        } else if row > last {
            last
        } else {
            row
        },
        e.cursor.goal_col as int,
    )
}

/// What is one row above the cursor; the cursor, on the first row.
pub open spec fn row_up(e: EditorView) -> int {
    if e.layout().position(e.cursor.byte as int).0 > 0 {
        rows_off_exactly(e, -1)
    } else {
        e.cursor.byte as int
    }
}

/// What is one row below the cursor; the cursor, on the last row.
pub open spec fn row_down(e: EditorView) -> int {
    if e.layout().position(e.cursor.byte as int).0 + 1 < total_of(e.layout().counts) {
        rows_off_exactly(e, 1)
    } else {
        e.cursor.byte as int
    }
}

/// What is some rows off the cursor, in the column that it keeps to.
pub open spec fn rows_off_exactly(e: EditorView, rows: int) -> int {
    e.layout().byte_at(
        e.layout().position(e.cursor.byte as int).0 + rows,
        e.cursor.goal_col as int,
    )
}

/// What a motion of the editor does to it.
#[verifier::spinoff_prover]
proof fn lemma_motion(e: EditorView, motion: Motion, extend: bool, page: int)
    ensures
        ({
            let m = e.moved(motion, extend, page);
            &&& m.doc == e.doc
            &&& m.history.undo == e.history.undo
            &&& m.history.redo == e.history.redo
            &&& m.cursor.byte == match motion {
                Motion::Left => one_left(e),
                Motion::Right => one_right(e),
                Motion::Up => row_up(e),
                Motion::Down => row_down(e),
                Motion::LineStart => line_begins(e),
                Motion::LineEnd => line_stops(e),
                Motion::WordForward => next_word(e.doc.text, e.cursor.byte as int),
                Motion::WordBack => prev_word(e.doc.text, e.cursor.byte as int),
                Motion::DocStart => 0,
                Motion::DocEnd => e.bytes().len() as int,
                Motion::PageUp => rows_off(e, -page),
                Motion::PageDown => rows_off(e, page),
            } as usize
            &&& m.anchor == if extend {
                match e.anchor {
                    Some(a) => Some(a),
                    None => Some(e.cursor.byte),
                }
            } else {
                None
            }
        }),
{
    reveal(EditorView::moved);
}

/// A key without Ctrl reaches the keybindings of the preset.
proof fn lemma_plain_keys_reach_the_preset(v: AppView, key: Key)
    requires
        at_the_document(v),
        !key.ctrl(),
        !(key.code is F),
        key.code != KeyCode::Char('?') || v.desk.preset != Preset::Vim || v.desk.mode != Mode::Normal,
    ensures
        v.handled(key) == v.silent().following().preset_key(key),
{
    reveal(AppView::handled);
    reveal(AppView::document_key);
    reveal(AppView::editing_key);
    reveal(AppView::typing_key);
}

/// A key with Ctrl that means nothing everywhere reaches the keybindings of the preset.
proof fn lemma_chords_reach_the_preset(v: AppView, key: Key)
    requires
        at_the_document(v),
        key.ctrl(),
        !(key.code is F),
        key.code matches KeyCode::Char(c) ==> c != 'q' && c != 's' && c != 'S' && c != 'g' && c
            != 'p' && c != 'P' && c != 'l' && c != 'b' && c != 't' && c != 'r' && c != 'h' && c
            != '?' && !((c == 'o' || c == 'O') && key.shift),
    ensures
        v.handled(key) == v.silent().following().preset_key(key),
{
    reveal(AppView::handled);
    reveal(AppView::document_key);
    reveal(AppView::editing_key);
    reveal(AppView::typing_key);
}

/// The arrow keys and their neighbours, wherever text is typed, move the cursor by one
/// cluster or row, to the ends of its line, or by a page; with Shift they select.
#[verifier::spinoff_prover]
pub proof fn lemma_arrow_keys_move(v: AppView, shift: bool)
    requires
        at_the_document(v),
        v.desk.mode == Mode::Insert,
        v.desk.pending is None,
        v.desk.preset != Preset::Emacs,
    ensures
        went(v, pressed(KeyCode::Left, false, shift, false), one_left(v.editor), shift),
        went(v, pressed(KeyCode::Right, false, shift, false), one_right(v.editor), shift),
        went(v, pressed(KeyCode::Up, false, shift, false), row_up(v.editor), shift),
        went(v, pressed(KeyCode::Down, false, shift, false), row_down(v.editor), shift),
        went(v, pressed(KeyCode::Home, false, shift, false), line_begins(v.editor), shift),
        went(v, pressed(KeyCode::End, false, shift, false), line_stops(v.editor), shift),
        went(v, pressed(KeyCode::PageUp, false, shift, false), rows_off(v.editor, -v.page()), shift),
        went(v, pressed(KeyCode::PageDown, false, shift, false), rows_off(v.editor, v.page()), shift),
{
    let codes = seq![
        KeyCode::Left,
        KeyCode::Right,
        KeyCode::Up,
        KeyCode::Down,
        KeyCode::Home,
        KeyCode::End,
        KeyCode::PageUp,
        KeyCode::PageDown,
    ];
    assert forall|i: int| 0 <= i < 8 implies arrow_moves(v, #[trigger] codes[i], shift) by {
        lemma_arrow_moves(v, codes[i], shift);
    }
    assert(arrow_moves(v, codes[0], shift));
    assert(arrow_moves(v, codes[1], shift));
    assert(arrow_moves(v, codes[2], shift));
    assert(arrow_moves(v, codes[3], shift));
    assert(arrow_moves(v, codes[4], shift));
    assert(arrow_moves(v, codes[5], shift));
    assert(arrow_moves(v, codes[6], shift));
    assert(arrow_moves(v, codes[7], shift));
}

spec fn arrow_place(v: AppView, code: KeyCode) -> int {
    match code {
        KeyCode::Left => one_left(v.editor),
        KeyCode::Right => one_right(v.editor),
        KeyCode::Up => row_up(v.editor),
        KeyCode::Down => row_down(v.editor),
        KeyCode::Home => line_begins(v.editor),
        KeyCode::End => line_stops(v.editor),
        KeyCode::PageUp => rows_off(v.editor, -v.page()),
        _ => rows_off(v.editor, v.page()),
    }
}

spec fn arrow_moves(v: AppView, code: KeyCode, shift: bool) -> bool {
    went(v, pressed(code, false, shift, false), arrow_place(v, code), shift)
}

#[verifier::spinoff_prover]
proof fn lemma_arrow_moves(v: AppView, code: KeyCode, shift: bool)
    requires
        at_the_document(v),
        v.desk.mode == Mode::Insert,
        v.desk.pending is None,
        v.desk.preset != Preset::Emacs,
        code == KeyCode::Left || code == KeyCode::Right || code == KeyCode::Up || code
            == KeyCode::Down || code == KeyCode::Home || code == KeyCode::End || code
            == KeyCode::PageUp || code == KeyCode::PageDown,
    ensures
        arrow_moves(v, code, shift),
{
    let key = pressed(code, false, shift, false);
    lemma_plain_keys_reach_the_preset(v, key);
    reveal(AppView::preset_key);
    reveal(AppView::standard_key);
    reveal(AppView::vim_key);
    reveal(AppView::vim_insert_key);
    reveal(AppView::modeless_key);
    reveal(AppView::typed_key);
    reveal(AppView::entered);
    reveal(AppView::navigated);
    let u = v.silent().following();
    let motion = match code {
        KeyCode::Left => Motion::Left,
        KeyCode::Right => Motion::Right,
        KeyCode::Up => Motion::Up,
        KeyCode::Down => Motion::Down,
        KeyCode::Home => Motion::LineStart,
        KeyCode::End => Motion::LineEnd,
        KeyCode::PageUp => Motion::PageUp,
        _ => Motion::PageDown,
    };
    lemma_motion(u.editor, motion, shift, u.page());
    assert(u.preset_key(key) == (u.moved(motion, shift), EffectView::Nothing));
}

/// Where a letter of Vim's normal and visual modes leads.
pub open spec fn vim_place(e: EditorView, c: char) -> Option<int> {
    if c == 'h' {
        Some(one_left(e))
    } else if c == 'l' {
        Some(one_right(e))
    } else if c == 'k' {
        Some(row_up(e))
    } else if c == 'j' {
        Some(row_down(e))
    } else if c == '0' {
        Some(line_begins(e))
    } else if c == '$' {
        Some(line_stops(e))
    } else if c == 'w' {
        Some(next_word(e.doc.text, e.cursor.byte as int))
    } else if c == 'b' {
        Some(prev_word(e.doc.text, e.cursor.byte as int))
    } else if c == 'G' {
        Some(e.bytes().len() as int)
    } else {
        None
    }
}

/// In Vim's normal mode the letters of motions move the cursor, and select nothing; in
/// visual mode they select.
#[verifier::spinoff_prover]
pub proof fn lemma_vim_letters_move(v: AppView, c: char, shift: bool)
    requires
        at_the_document(v),
        v.desk.preset == Preset::Vim,
        v.desk.mode != Mode::Insert,
        v.desk.pending is None,
        vim_place(v.editor, c) is Some,
    ensures
        went(
            v,
            pressed(KeyCode::Char(c), false, shift, false),
            vim_place(v.editor, c)->0,
            v.desk.mode == Mode::Visual,
        ),
{
    let key = pressed(KeyCode::Char(c), false, shift, false);
    lemma_plain_keys_reach_the_preset(v, key);
    reveal(AppView::preset_key);
    reveal(AppView::vim_key);
    reveal(AppView::vim_normal_key);
    reveal(AppView::vim_visual_key);
    let u = v.silent().following();
    let motion = vim_motion_of(key.code)->0;
    lemma_motion(u.editor, motion, v.desk.mode == Mode::Visual, u.page());
}

/// A letter that is no motion reaches the commands of Vim's normal mode.
#[verifier::spinoff_prover]
proof fn lemma_vim_letter_is_reached(v: AppView, c: char)
    requires
        at_the_document(v),
        v.desk.preset == Preset::Vim,
        v.desk.mode == Mode::Normal,
        v.desk.pending is None,
        vim_place(v.editor, c) is None,
        c != '?',
    ensures
        v.handled(pressed(KeyCode::Char(c), false, false, false))
            == v.silent().following().vim_letter(c, false),
{
    lemma_plain_keys_reach_the_preset(v, pressed(KeyCode::Char(c), false, false, false));
    reveal(AppView::preset_key);
    reveal(AppView::vim_key);
    reveal(AppView::vim_normal_key);
}

/// The second letter of a command reaches it.
#[verifier::spinoff_prover]
proof fn lemma_vim_operator_is_reached(v: AppView, op: char, c: char)
    requires
        at_the_document(v),
        v.desk.preset == Preset::Vim,
        v.desk.mode == Mode::Normal,
        v.desk.pending == Some(op),
        c != '?',
    ensures
        v.handled(pressed(KeyCode::Char(c), false, false, false))
            == v.silent().following().awaiting(None).vim_operated(op, KeyCode::Char(c)),
{
    lemma_plain_keys_reach_the_preset(v, pressed(KeyCode::Char(c), false, false, false));
    reveal(AppView::preset_key);
    reveal(AppView::vim_key);
    reveal(AppView::vim_normal_key);
}

/// The first letter of a command of two letters waits for the second, and does nothing else.
#[verifier::spinoff_prover]
pub proof fn lemma_vim_commands_wait(v: AppView, c: char)
    requires
        at_the_document(v),
        v.desk.preset == Preset::Vim,
        v.desk.mode == Mode::Normal,
        v.desk.pending is None,
        c == 'g' || c == 'd' || c == 'y',
    ensures
        ({
            let (w, effect) = v.handled(pressed(KeyCode::Char(c), false, false, false));
            &&& w.editor == v.editor
            &&& w.register == v.register
            &&& at_the_document(w)
            &&& w.desk.preset == Preset::Vim
            &&& w.desk.mode == Mode::Normal
            &&& w.desk.pending == Some(c)
            &&& effect == EffectView::Nothing
        }),
{
    lemma_vim_letter_is_reached(v, c);
    reveal(AppView::vim_letter);
}

/// In Vim's normal mode `g g` leads to the beginning of the document.
#[verifier::spinoff_prover]
pub proof fn lemma_vim_goes_to_the_top(v: AppView)
    requires
        at_the_document(v),
        v.desk.preset == Preset::Vim,
        v.desk.mode == Mode::Normal,
        v.desk.pending == Some('g'),
    ensures
        went(v, pressed(KeyCode::Char('g'), false, false, false), 0, false),
        v.handled(pressed(KeyCode::Char('g'), false, false, false)).0.desk.pending is None,
{
    lemma_vim_operator_is_reached(v, 'g', 'g');
    reveal(AppView::vim_operated);
    lemma_motion(v.editor, Motion::DocStart, false, v.page());
}

/// The text of the line of the cursor, with its line ending.
pub open spec fn whole_line(e: EditorView) -> Seq<char> {
    text_between(
        e.bytes(),
        line_start(e.bytes(), e.cursor_line()),
        line_start(e.bytes(), e.cursor_line() + 1),
    )
}

/// In Vim's normal mode `y y` copies the line of the cursor and leaves the document alone.
#[verifier::spinoff_prover]
pub proof fn lemma_vim_yanks_the_line(v: AppView)
    requires
        at_the_document(v),
        v.desk.preset == Preset::Vim,
        v.desk.mode == Mode::Normal,
        v.desk.pending == Some('y'),
        whole_line(v.editor).len() > 0,
    ensures
        ({
            let (w, effect) = v.handled(pressed(KeyCode::Char('y'), false, false, false));
            &&& w.editor == v.editor
            &&& w.register == whole_line(v.editor)
            &&& effect == EffectView::Copy(whole_line(v.editor))
            &&& w.desk.pending is None
            &&& w.desk.mode == Mode::Normal
        }),
{
    lemma_vim_operator_is_reached(v, 'y', 'y');
    reveal(AppView::vim_operated);
    reveal(AppView::line_yanked);
}

/// In Vim's normal mode `d d` moves the line of the cursor out of the document, into the
/// register and to the clipboard; a list that it was part of is numbered anew.
#[verifier::spinoff_prover]
pub proof fn lemma_vim_deletes_the_line(v: AppView)
    requires
        at_the_document(v),
        v.desk.preset == Preset::Vim,
        v.desk.mode == Mode::Normal,
        v.desk.pending == Some('d'),
        v.editor.ok(),
        whole_line(v.editor).len() > 0,
        v.editor.has_room(v.editor.bytes().len() as int),
    ensures
        ({
            let e = v.editor;
            let s = line_start(e.bytes(), e.cursor_line());
            let end = line_start(e.bytes(), e.cursor_line() + 1);
            let (w, effect) = v.handled(pressed(KeyCode::Char('d'), false, false, false));
            &&& w.register == whole_line(e)
            &&& effect == EffectView::Copy(whole_line(e))
            &&& w.desk.pending is None
            &&& exists|cut: EditorView|
                {
                    &&& #[trigger] cut.renumbered() == w.editor
                    &&& cut.bytes() == e.bytes().take(s) + e.bytes().skip(end)
                    &&& cut.cursor.byte == s
                }
        }),
{
    lemma_vim_operator_is_reached(v, 'd', 'd');
    reveal(AppView::vim_operated);
    reveal(AppView::line_deleted);
    reveal(AppView::cut_out);
    let e = v.editor;
    let b = e.bytes();
    let line = e.cursor_line();
    let s = line_start(b, line);
    let end = line_start(b, line + 1);
    vstd::utf8::encode_utf8_valid_utf8(e.doc.text);
    lemma_line_of(b, e.cursor.byte as int);
    lemma_breaks_before(b, 0, e.cursor.byte as int);
    lemma_line_start_boundary(b, line);
    lemma_line_start_boundary(b, line + 1);
    lemma_line_starts_grow(b, line, line + 1);
    let none = Seq::<char>::empty();
    assert(vstd::utf8::encode_utf8(none) =~= Seq::<u8>::empty());
    if s == end {
        assert(b.subrange(s, end) =~= vstd::utf8::encode_utf8(none));
        vstd::utf8::encode_utf8_decode_utf8(none);
    }
    let cut = e.run_ended().replaced(s, end, none, None).run_ended();
    lemma_replaced_bytes(e.run_ended(), s, end, none);
    assert(cut.bytes() =~= b.take(s) + b.skip(end));
    assert(v.handled(pressed(KeyCode::Char('d'), false, false, false)).0.editor
        == cut.renumbered());
}

/// In Vim's normal mode `i`, `a`, `I` and `A` begin to type: at the cursor, behind the
/// cluster there, at the beginning of the line, and at its end.
#[verifier::spinoff_prover]
pub proof fn lemma_vim_begins_to_type(v: AppView, c: char)
    requires
        at_the_document(v),
        v.desk.preset == Preset::Vim,
        v.desk.mode == Mode::Normal,
        v.desk.pending is None,
        c == 'i' || c == 'a' || c == 'I' || c == 'A',
    ensures
        ({
            let (w, effect) = v.handled(pressed(KeyCode::Char(c), false, false, false));
            &&& w.desk.mode == Mode::Insert
            &&& w.editor.doc == v.editor.doc
            &&& w.editor.cursor.byte == (if c == 'a' {
                one_right(v.editor)
            } else if c == 'I' {
                line_begins(v.editor)
            } else if c == 'A' {
                line_stops(v.editor)
            } else {
                v.editor.cursor.byte as int
            }) as usize
            &&& effect == EffectView::Nothing
        }),
{
    lemma_vim_letter_is_reached(v, c);
    reveal(AppView::vim_letter);
    let page = v.page();
    lemma_motion(v.editor, Motion::Right, false, page);
    lemma_motion(v.editor, Motion::LineStart, false, page);
    lemma_motion(v.editor, Motion::LineEnd, false, page);
}

/// Escape ends typing in Vim's insert mode, and selecting in its visual mode; the document
/// and the cursor stay.
#[verifier::spinoff_prover]
pub proof fn lemma_vim_escape_rests(v: AppView)
    requires
        at_the_document(v),
        v.desk.preset == Preset::Vim,
        v.desk.mode == Mode::Insert || v.desk.mode == Mode::Visual,
    ensures
        ({
            let (w, effect) = v.handled(pressed(KeyCode::Esc, false, false, false));
            &&& w.desk.mode == Mode::Normal
            &&& w.editor.doc == v.editor.doc
            &&& w.editor.cursor.byte == v.editor.cursor.byte
            &&& v.desk.mode == Mode::Visual ==> w.editor.anchor is None
            &&& effect == EffectView::Nothing
        }),
{
    lemma_plain_keys_reach_the_preset(v, pressed(KeyCode::Esc, false, false, false));
    reveal(AppView::preset_key);
    reveal(AppView::vim_key);
    reveal(AppView::vim_insert_key);
    reveal(AppView::vim_visual_key);
}

/// In Vim's normal mode `o` and `O` open a line, `v` begins to select at the cursor, `u`
/// takes the last edit back, `p` pastes, and `/` asks what to find.
#[verifier::spinoff_prover]
pub proof fn lemma_vim_commands(v: AppView)
    requires
        at_the_document(v),
        v.desk.preset == Preset::Vim,
        v.desk.mode == Mode::Normal,
        v.desk.pending is None,
    ensures
        v.handled(pressed(KeyCode::Char('o'), false, false, false)).0.editor == v.line_opened(
            true,
        ).editor,
        v.handled(pressed(KeyCode::Char('O'), false, false, false)).0.editor == v.line_opened(
            false,
        ).editor,
        ({
            let w = v.handled(pressed(KeyCode::Char('v'), false, false, false)).0;
            &&& w.desk.mode == Mode::Visual
            &&& w.editor.doc == v.editor.doc
            &&& w.editor.cursor == v.editor.cursor
            &&& w.editor.anchor == Some(v.editor.cursor.byte)
        }),
        v.handled(pressed(KeyCode::Char('u'), false, false, false)).0.editor == v.editor.undone(),
        v.handled(pressed(KeyCode::Char('p'), false, false, false)).1 == EffectView::Paste,
        v.handled(pressed(KeyCode::Char('P'), false, false, false)).1 == EffectView::Paste,
        v.handled(pressed(KeyCode::Char('/'), false, false, false)).0.prompt matches Some(p)
            && p is Find,
{
    lemma_vim_letter_is_reached(v, 'o');
    lemma_vim_letter_is_reached(v, 'O');
    lemma_vim_letter_is_reached(v, 'v');
    lemma_vim_letter_is_reached(v, 'u');
    lemma_vim_letter_is_reached(v, 'p');
    lemma_vim_letter_is_reached(v, 'P');
    lemma_vim_letter_is_reached(v, '/');
    reveal(AppView::vim_letter);
    reveal(AppView::ran);
    reveal(AppView::text_command);
    reveal(AppView::view_command);
    reveal(AppView::find_opened);
    reveal(AppView::undone);
    reveal(AppView::line_opened);
}

/// Numbering a list anew selects nothing.
#[verifier::spinoff_prover]
proof fn lemma_renumbering_selects_nothing(e: EditorView)
    requires
        e.anchor is None,
    ensures
        e.renumbered().anchor is None,
{
    reveal(EditorView::renumbered);
    reveal(EditorView::replaced);
    reveal(EditorView::changed);
}

/// In Vim's visual mode `y` copies what is selected and `d` and `x` move it out of the
/// document, to the register and the clipboard; nothing is selected any more.
#[verifier::spinoff_prover]
pub proof fn lemma_vim_takes_the_selection(v: AppView, c: char)
    requires
        at_the_document(v),
        v.desk.preset == Preset::Vim,
        v.desk.mode == Mode::Visual,
        v.editor.ok(),
        v.editor.selection() is Some,
        c == 'y' || c == 'd' || c == 'x',
        v.editor.has_room(v.editor.bytes().len() as int),
    ensures
        ({
            let e = v.editor;
            let (s, end) = e.selection()->0;
            let t = text_between(e.bytes(), s as int, end as int);
            let (w, effect) = v.handled(pressed(KeyCode::Char(c), false, false, false));
            &&& w.register == t
            &&& effect == EffectView::Copy(t)
            &&& w.desk.mode == Mode::Normal
            &&& w.editor.selection() is None
            &&& c == 'y' ==> w.editor.doc == e.doc
            &&& c != 'y' && !has_char(t, '\n') ==> w.editor.bytes() == e.bytes().take(s as int)
                + e.bytes().skip(end as int) && w.editor.cursor.byte == s
        }),
{
    lemma_plain_keys_reach_the_preset(v, pressed(KeyCode::Char(c), false, false, false));
    reveal(AppView::preset_key);
    reveal(AppView::vim_key);
    reveal(AppView::vim_visual_key);
    reveal(AppView::copied);
    reveal(AppView::cut);
    reveal(AppView::cut_out);
    let e = v.editor;
    let b = e.bytes();
    let (s, end) = e.selection()->0;
    let none = Seq::<char>::empty();
    assert(vstd::utf8::encode_utf8(none) =~= Seq::<u8>::empty());
    crate::editor::lemma_slice_is_not_empty(e, s as int, end as int);
    if c != 'y' {
        lemma_replaced_bytes(e.run_ended(), s as int, end as int, none);
        assert(e.run_ended().replaced(s as int, end as int, none, None).bytes() =~= b.take(s as int)
            + b.skip(end as int));
        lemma_renumbering_selects_nothing(
            e.run_ended().replaced(s as int, end as int, none, None).run_ended(),
        );
    }
}

/// In Vim's normal mode `x` deletes the cluster at the cursor, if it is no line ending.
#[verifier::spinoff_prover]
pub proof fn lemma_vim_deletes_the_cluster(v: AppView)
    requires
        at_the_document(v),
        v.desk.preset == Preset::Vim,
        v.desk.mode == Mode::Normal,
        v.desk.pending is None,
        v.editor.ok(),
        v.editor.anchor is None,
        v.editor.cursor.byte < one_right(v.editor),
        boundary(v.editor.bytes(), one_right(v.editor)),
        !has_char(
            text_between(v.editor.bytes(), v.editor.cursor.byte as int, one_right(v.editor)),
            '\n',
        ),
        v.editor.has_room(v.editor.bytes().len() as int),
    ensures
        ({
            let e = v.editor;
            let at = e.cursor.byte as int;
            let w = v.handled(pressed(KeyCode::Char('x'), false, false, false)).0;
            &&& w.editor.bytes() == e.bytes().take(at) + e.bytes().skip(one_right(e))
            &&& w.editor.cursor.byte == at
            &&& w.desk.mode == Mode::Normal
        }),
{
    lemma_vim_letter_is_reached(v, 'x');
    reveal(AppView::vim_letter);
    reveal(EditorView::removed);
    let e = v.editor;
    let at = e.cursor.byte as int;
    let none = Seq::<char>::empty();
    assert(vstd::utf8::encode_utf8(none) =~= Seq::<u8>::empty());
    assert(e.delete_range() == Some((at, one_right(e))));
    lemma_replaced_bytes(e, at, one_right(e), none);
    assert(e.replaced(at, one_right(e), none, None).bytes() =~= e.bytes().take(at)
        + e.bytes().skip(one_right(e)));
}

/// With Ctrl, the standard keybindings move by words and to the ends of the document; with
/// Shift they select.
#[verifier::spinoff_prover]
pub proof fn lemma_standard_chords_move(v: AppView, shift: bool)
    requires
        at_the_document(v),
        v.desk.preset == Preset::Standard,
    ensures
        went(
            v,
            pressed(KeyCode::Left, true, shift, false),
            prev_word(v.editor.doc.text, v.editor.cursor.byte as int),
            shift,
        ),
        went(
            v,
            pressed(KeyCode::Right, true, shift, false),
            next_word(v.editor.doc.text, v.editor.cursor.byte as int),
            shift,
        ),
        went(v, pressed(KeyCode::Home, true, shift, false), 0, shift),
        went(v, pressed(KeyCode::End, true, shift, false), v.editor.bytes().len() as int, shift),
{
    lemma_standard_chord_moves(v, KeyCode::Left, shift);
    lemma_standard_chord_moves(v, KeyCode::Right, shift);
    lemma_standard_chord_moves(v, KeyCode::Home, shift);
    lemma_standard_chord_moves(v, KeyCode::End, shift);
}

#[verifier::spinoff_prover]
proof fn lemma_standard_chord_moves(v: AppView, code: KeyCode, shift: bool)
    requires
        at_the_document(v),
        v.desk.preset == Preset::Standard,
        code == KeyCode::Left || code == KeyCode::Right || code == KeyCode::Home || code
            == KeyCode::End,
    ensures
        went(
            v,
            pressed(code, true, shift, false),
            match code {
                KeyCode::Left => prev_word(v.editor.doc.text, v.editor.cursor.byte as int),
                KeyCode::Right => next_word(v.editor.doc.text, v.editor.cursor.byte as int),
                KeyCode::Home => 0,
                _ => v.editor.bytes().len() as int,
            },
            shift,
        ),
{
    let key = pressed(code, true, shift, false);
    lemma_chords_reach_the_preset(v, key);
    reveal(AppView::preset_key);
    reveal(AppView::standard_key);
    reveal(AppView::obeyed);
    let u = v.silent().following();
    let motion = match code {
        KeyCode::Left => Motion::WordBack,
        KeyCode::Right => Motion::WordForward,
        KeyCode::Home => Motion::DocStart,
        _ => Motion::DocEnd,
    };
    lemma_motion(u.editor, motion, shift, u.page());
    assert(standard_chord(key) == Chord::Go(motion));
}

/// In the Emacs keybindings, Ctrl and Alt with a letter move the cursor; once the mark is
/// set they select.
#[verifier::spinoff_prover]
pub proof fn lemma_emacs_letters_move(v: AppView)
    requires
        at_the_document(v),
        v.desk.preset == Preset::Emacs,
        v.desk.pending is None,
    ensures
        ({
            let mark = v.editor.anchor is Some;
            let at = v.editor.cursor.byte as int;
            let text = v.editor.doc.text;
            &&& went(v, pressed(KeyCode::Char('a'), true, false, false), line_begins(v.editor), mark)
            &&& went(v, pressed(KeyCode::Char('e'), true, false, false), line_stops(v.editor), mark)
            &&& went(v, pressed(KeyCode::Char('f'), true, false, false), one_right(v.editor), mark)
            &&& went(v, pressed(KeyCode::Char('n'), true, false, false), row_down(v.editor), mark)
            &&& went(v, pressed(KeyCode::Char('f'), false, false, true), next_word(text, at), mark)
            &&& went(v, pressed(KeyCode::Char('b'), false, false, true), prev_word(text, at), mark)
        }),
{
    lemma_emacs_chord_moves(v, 'a', Motion::LineStart);
    lemma_emacs_chord_moves(v, 'e', Motion::LineEnd);
    lemma_emacs_chord_moves(v, 'f', Motion::Right);
    lemma_emacs_chord_moves(v, 'n', Motion::Down);
    lemma_emacs_alt_moves(v, 'f', Motion::WordForward);
    lemma_emacs_alt_moves(v, 'b', Motion::WordBack);
}

spec fn emacs_place(e: EditorView, motion: Motion) -> int {
    match motion {
        Motion::LineStart => line_begins(e),
        Motion::LineEnd => line_stops(e),
        Motion::Right => one_right(e),
        Motion::Down => row_down(e),
        Motion::WordForward => next_word(e.doc.text, e.cursor.byte as int),
        _ => prev_word(e.doc.text, e.cursor.byte as int),
    }
}

#[verifier::spinoff_prover]
proof fn lemma_emacs_chord_moves(v: AppView, c: char, motion: Motion)
    requires
        at_the_document(v),
        v.desk.preset == Preset::Emacs,
        v.desk.pending is None,
        c == 'a' && motion == Motion::LineStart || c == 'e' && motion == Motion::LineEnd || c == 'f'
            && motion == Motion::Right || c == 'n' && motion == Motion::Down,
    ensures
        went(
            v,
            pressed(KeyCode::Char(c), true, false, false),
            emacs_place(v.editor, motion),
            v.editor.anchor is Some,
        ),
{
    let key = pressed(KeyCode::Char(c), true, false, false);
    lemma_chords_reach_the_preset(v, key);
    reveal(AppView::preset_key);
    reveal(AppView::modeless_key);
    reveal(AppView::modeless_ctrl);
    reveal(AppView::obeyed);
    let u = v.silent().following();
    lemma_motion(u.editor, motion, v.editor.anchor is Some, u.page());
}

#[verifier::spinoff_prover]
proof fn lemma_emacs_alt_moves(v: AppView, c: char, motion: Motion)
    requires
        at_the_document(v),
        v.desk.preset == Preset::Emacs,
        v.desk.pending is None,
        c == 'f' && motion == Motion::WordForward || c == 'b' && motion == Motion::WordBack,
    ensures
        went(
            v,
            pressed(KeyCode::Char(c), false, false, true),
            emacs_place(v.editor, motion),
            v.editor.anchor is Some,
        ),
{
    let key = pressed(KeyCode::Char(c), false, false, true);
    lemma_plain_keys_reach_the_preset(v, key);
    reveal(AppView::preset_key);
    reveal(AppView::modeless_key);
    reveal(AppView::emacs_alt);
    let u = v.silent().following();
    lemma_motion(u.editor, motion, v.editor.anchor is Some, u.page());
}

// --- keys that run commands ---

/// Whether a key runs a command.
pub open spec fn runs(v: AppView, key: Key, action: Action) -> bool {
    v.handled(key) == v.silent().following().ran(action)
}

/// Whether a key runs a command and ends a command of two keys that was begun.
pub open spec fn runs_at_once(v: AppView, key: Key, action: Action) -> bool {
    let (w, effect) = v.silent().following().ran(action);
    v.handled(key) == (w.awaiting(None), effect)
}

/// A letter with Ctrl.
pub open spec fn ctrl(c: char) -> Key {
    pressed(KeyCode::Char(c), true, false, false)
}

/// In the standard keybindings Ctrl selects all, copies, cuts, pastes, takes back, makes
/// again and finds, with the letters that are common.
#[verifier::spinoff_prover]
pub proof fn lemma_standard_chords_run_commands(v: AppView)
    requires
        at_the_document(v),
        v.desk.preset == Preset::Standard,
    ensures
        runs(v, ctrl('a'), Action::SelectAll),
        runs(v, ctrl('c'), Action::Copy),
        runs(v, ctrl('x'), Action::Cut),
        runs(v, ctrl('v'), Action::Paste),
        runs(v, ctrl('z'), Action::Undo),
        runs(v, ctrl('y'), Action::Redo),
        runs(v, pressed(KeyCode::Char('z'), true, true, false), Action::Redo),
        runs(v, ctrl('f'), Action::Find),
{
    lemma_chords_reach_the_preset(v, ctrl('a'));
    lemma_chords_reach_the_preset(v, ctrl('c'));
    lemma_chords_reach_the_preset(v, ctrl('x'));
    lemma_chords_reach_the_preset(v, ctrl('v'));
    lemma_chords_reach_the_preset(v, ctrl('z'));
    lemma_chords_reach_the_preset(v, ctrl('y'));
    lemma_chords_reach_the_preset(v, pressed(KeyCode::Char('z'), true, true, false));
    lemma_chords_reach_the_preset(v, ctrl('f'));
    reveal(AppView::preset_key);
    reveal(AppView::standard_key);
    reveal(AppView::obeyed);
}

/// In the Nano keybindings Ctrl cuts with `k`, pastes with `u`, saves with `o`, finds with
/// `w` and `f`, and takes back with `z`.
#[verifier::spinoff_prover]
pub proof fn lemma_nano_chords_run_commands(v: AppView)
    requires
        at_the_document(v),
        v.desk.preset == Preset::Nano,
        v.desk.pending is None,
    ensures
        runs(v, ctrl('k'), Action::Cut),
        runs(v, ctrl('u'), Action::Paste),
        runs(v, ctrl('o'), Action::Save),
        runs(v, ctrl('w'), Action::Find),
        runs(v, ctrl('f'), Action::Find),
        runs(v, ctrl('z'), Action::Undo),
{
    lemma_chords_reach_the_preset(v, ctrl('k'));
    lemma_chords_reach_the_preset(v, ctrl('u'));
    lemma_chords_reach_the_preset(v, ctrl('o'));
    lemma_chords_reach_the_preset(v, ctrl('w'));
    lemma_chords_reach_the_preset(v, ctrl('f'));
    lemma_chords_reach_the_preset(v, ctrl('z'));
    reveal(AppView::preset_key);
    reveal(AppView::modeless_key);
    reveal(AppView::modeless_ctrl);
    reveal(AppView::obeyed);
}

/// In the Emacs keybindings Ctrl cuts with `w`, pastes with `y` and takes back with `z`; Alt
/// finds with `s` and copies with `w`, after which nothing is selected; Ctrl and a space set
/// the mark at the cursor; and Ctrl with `x` and then `c` quits.
#[verifier::spinoff_prover]
pub proof fn lemma_emacs_chords_run_commands(v: AppView)
    requires
        at_the_document(v),
        v.desk.preset == Preset::Emacs,
        v.desk.pending is None,
    ensures
        runs(v, ctrl('w'), Action::Cut),
        runs(v, ctrl('y'), Action::Paste),
        runs(v, ctrl('z'), Action::Undo),
        runs(v, pressed(KeyCode::Char('s'), false, false, true), Action::Find),
        ({
            let (w, effect) = v.handled(pressed(KeyCode::Char('w'), false, false, true));
            let (c, copied) = v.silent().following().ran(Action::Copy);
            &&& w.register == c.register
            &&& effect == copied
            &&& w.editor.doc == c.editor.doc
            &&& w.editor.anchor is None
        }),
        ({
            let w = v.handled(ctrl(' ')).0;
            &&& w.editor.anchor == Some(v.editor.cursor.byte)
            &&& w.editor.cursor == v.editor.cursor
            &&& w.editor.doc == v.editor.doc
        }),
        ({
            let w = v.handled(ctrl('x')).0;
            &&& w.editor == v.editor
            &&& w.handled(ctrl('c')) == w.silent().following().awaiting(None).ran(Action::Quit)
        }),
{
    lemma_chords_reach_the_preset(v, ctrl('w'));
    lemma_chords_reach_the_preset(v, ctrl('y'));
    lemma_chords_reach_the_preset(v, ctrl('z'));
    lemma_chords_reach_the_preset(v, ctrl(' '));
    lemma_chords_reach_the_preset(v, ctrl('x'));
    lemma_plain_keys_reach_the_preset(v, pressed(KeyCode::Char('s'), false, false, true));
    lemma_plain_keys_reach_the_preset(v, pressed(KeyCode::Char('w'), false, false, true));
    reveal(AppView::preset_key);
    reveal(AppView::modeless_key);
    reveal(AppView::modeless_ctrl);
    reveal(AppView::emacs_alt);
    reveal(AppView::obeyed);
    let w = v.handled(ctrl('x')).0;
    lemma_chords_reach_the_preset(w, ctrl('c'));
}

#[verifier::spinoff_prover]
proof fn lemma_shortcut_runs(v: AppView, key: Key, action: Action)
    requires
        at_the_document(AppView { desk: Desk { mode: Mode::Insert, table_mode: false, ..v.desk }, ..v }),
        global_action(key) == Some(action),
    ensures
        runs_at_once(v, key, action),
{
    reveal(AppView::handled);
    reveal(AppView::document_key);
}

/// Whatever the keybindings, and also while the document is only read, Ctrl saves with `s`,
/// quits with `q`, opens the settings with `g`, enters and leaves the preview with `p`,
/// changes the keybindings with `l` and the cursor with `b`; with Shift it saves under a name
/// and opens the outline and the commands, as function keys do.
#[verifier::spinoff_prover]
pub proof fn lemma_shortcuts_run_commands_everywhere(v: AppView)
    requires
        at_the_document(AppView { desk: Desk { mode: Mode::Insert, table_mode: false, ..v.desk }, ..v }),
    ensures
        runs_at_once(v, ctrl('s'), Action::Save),
        runs_at_once(v, ctrl('q'), Action::Quit),
        runs_at_once(v, ctrl('g'), Action::Settings),
        runs_at_once(v, ctrl('p'), Action::TogglePreview),
        runs_at_once(v, ctrl('l'), Action::CyclePreset),
        runs_at_once(v, ctrl('b'), Action::ToggleCursor),
        runs_at_once(v, pressed(KeyCode::Char('s'), true, true, false), Action::SaveAs),
        runs_at_once(v, pressed(KeyCode::Char('S'), true, true, false), Action::SaveAs),
        runs_at_once(v, pressed(KeyCode::Char('o'), true, true, false), Action::Outline),
        runs_at_once(v, pressed(KeyCode::Char('O'), true, true, false), Action::Outline),
        runs_at_once(v, pressed(KeyCode::Char('p'), true, true, false), Action::CommandPalette),
        runs_at_once(v, pressed(KeyCode::Char('P'), true, true, false), Action::CommandPalette),
        runs_at_once(v, pressed(KeyCode::F(1), false, false, false), Action::CommandPalette),
        runs_at_once(v, pressed(KeyCode::F(2), false, false, false), Action::Outline),
        runs_at_once(v, pressed(KeyCode::F(12), false, false, false), Action::SaveAs),
{
    lemma_shortcut_runs(v, ctrl('s'), Action::Save);
    lemma_shortcut_runs(v, ctrl('q'), Action::Quit);
    lemma_shortcut_runs(v, ctrl('g'), Action::Settings);
    lemma_shortcut_runs(v, ctrl('p'), Action::TogglePreview);
    lemma_shortcut_runs(v, ctrl('l'), Action::CyclePreset);
    lemma_shortcut_runs(v, ctrl('b'), Action::ToggleCursor);
    lemma_shortcut_runs(v, pressed(KeyCode::Char('s'), true, true, false), Action::SaveAs);
    lemma_shortcut_runs(v, pressed(KeyCode::Char('S'), true, true, false), Action::SaveAs);
    lemma_shortcut_runs(v, pressed(KeyCode::Char('o'), true, true, false), Action::Outline);
    lemma_shortcut_runs(v, pressed(KeyCode::Char('O'), true, true, false), Action::Outline);
    lemma_shortcut_runs(v, pressed(KeyCode::Char('p'), true, true, false), Action::CommandPalette);
    lemma_shortcut_runs(v, pressed(KeyCode::Char('P'), true, true, false), Action::CommandPalette);
    lemma_shortcut_runs(v, pressed(KeyCode::F(1), false, false, false), Action::CommandPalette);
    lemma_shortcut_runs(v, pressed(KeyCode::F(2), false, false, false), Action::Outline);
    lemma_shortcut_runs(v, pressed(KeyCode::F(12), false, false, false), Action::SaveAs);
}

/// Ctrl and `r` shows the source and hides it again, but in Vim's normal mode it makes again
/// what was taken back; and Ctrl and `t` edits tables row by row, or no longer.
#[verifier::spinoff_prover]
pub proof fn lemma_more_shortcuts(v: AppView)
    requires
        at_the_document(v),
        v.desk.pending is None,
    ensures
        v.desk.preset == Preset::Vim && v.desk.mode == Mode::Normal ==> runs(
            v,
            ctrl('r'),
            Action::Redo,
        ),
        !(v.desk.preset == Preset::Vim && v.desk.mode == Mode::Normal) ==> v.handled(ctrl('r'))
            == v.silent().following().awaiting(None).ran(Action::ToggleRaw),
        v.handled(ctrl('t')) == v.silent().following().awaiting(None).ran(Action::ToggleTable),
{
    reveal(AppView::handled);
    reveal(AppView::document_key);
    reveal(AppView::editing_key);
    reveal(AppView::typing_key);
    reveal(AppView::preset_key);
    reveal(AppView::vim_key);
    reveal(AppView::vim_normal_key);
    reveal(AppView::vim_letter);
}

/// While a table is edited row by row, Tab goes forward through its cells and Shift with Tab
/// back; Ctrl inserts a row with `n` and deletes one with `d`; and Alt with an arrow moves
/// the row up or down.
#[verifier::spinoff_prover]
pub proof fn lemma_table_keys(v: AppView)
    requires
        at_the_document(v.in_table_mode(false)),
        v.desk.table_mode,
        v.editor.table() is Some,
        !(v.desk.preset == Preset::Vim && v.desk.mode == Mode::Normal),
    ensures
        v.handled(pressed(KeyCode::Tab, false, false, false)).0.editor == v.editor.cell_jumped(true),
        v.handled(pressed(KeyCode::Tab, false, true, false)).0.editor == v.editor.cell_jumped(false),
        v.handled(pressed(KeyCode::BackTab, false, false, false)).0.editor == v.editor.cell_jumped(
            false,
        ),
        v.handled(pressed(KeyCode::BackTab, false, true, false)).0.editor == v.editor.cell_jumped(
            false,
        ),
        v.handled(ctrl('n')).0.editor == v.editor.row_inserted().0,
        v.handled(ctrl('d')).0.editor == v.editor.row_deleted().0,
        v.handled(pressed(KeyCode::Up, false, false, true)).0.editor == v.editor.row_moved(false).0,
        v.handled(pressed(KeyCode::Down, false, false, true)).0.editor == v.editor.row_moved(true).0,
{
    reveal(AppView::handled);
    reveal(AppView::document_key);
    reveal(AppView::editing_key);
    reveal(AppView::table_key);
}

/// In the preview keys scroll and never move the cursor: `j` and Down by a row, the space and
/// Page Down by a page, `k`, Up and Page Up back, as far as there are rows; `g` and Home to
/// the top, `G` and End to the bottom; and `q` and Escape leave.
#[verifier::spinoff_prover]
pub proof fn lemma_preview_keys_scroll(v: AppView, code: KeyCode)
    requires
        at_the_document(AppView { desk: Desk { mode: Mode::Insert, table_mode: false, ..v.desk }, ..v }),
        v.desk.mode == Mode::Read,
        !(code is F),
    ensures
        ({
            let (w, effect) = v.handled(pressed(code, false, false, false));
            let y = v.desk.scroll_y as int;
            let height = if v.desk.viewport_height == 0 {
                1int
            } else {
                v.desk.viewport_height as int
            };
            let bottom = if v.desk.preview_rows < height {
                0
            } else {
                v.desk.preview_rows - height
            };
            let page = if height < 2 {
                1
            } else {
                height - 1
            };
            let down = |rows: int|
                if y + rows > bottom {
                    bottom
                } else {
                    y + rows
                };
            let up = |rows: int|
                if y - rows > bottom {
                    bottom
                } else if y < rows {
                    0
                } else {
                    y - rows
                };
            &&& effect == EffectView::Nothing
            &&& w.editor.doc == v.editor.doc
            &&& code == KeyCode::Down || code == KeyCode::Char('j') ==> w.desk.scroll_y == down(1)
            &&& code == KeyCode::Up || code == KeyCode::Char('k') ==> w.desk.scroll_y == up(1)
            &&& code == KeyCode::PageDown || code == KeyCode::Char(' ') ==> w.desk.scroll_y == down(
                page,
            )
            &&& code == KeyCode::PageUp ==> w.desk.scroll_y == up(page)
            &&& code == KeyCode::Home || code == KeyCode::Char('g') ==> w.desk.scroll_y == 0
            &&& code == KeyCode::End || code == KeyCode::Char('G') ==> w.desk.scroll_y == bottom
            &&& code == KeyCode::Esc || code == KeyCode::Char('q') ==> w.desk.mode != Mode::Read
            &&& code != KeyCode::Esc && code != KeyCode::Char('q') && !(v.desk.preset
                == Preset::Vim && code == KeyCode::Char('?')) ==> w.editor == v.editor
                && w.desk.mode == Mode::Read
        }),
{
    reveal(AppView::handled);
    reveal(AppView::document_key);
    reveal(AppView::preview_key);
    reveal(AppView::preview_left);
}

/// Where text is typed, with any of the keybindings, a character is typed, Enter ends the
/// line, Tab puts in a tab, and Backspace and Delete delete what is before and behind the
/// cursor; nothing but the document changes.
#[verifier::spinoff_prover]
pub proof fn lemma_keys_type(v: AppView, code: KeyCode, shift: bool)
    requires
        at_the_document(v),
        v.desk.mode == Mode::Insert,
        v.desk.pending is None,
        code is Char || code == KeyCode::Enter || code == KeyCode::Tab || code == KeyCode::Backspace
            || code == KeyCode::Delete,
    ensures
        ({
            let (w, effect) = v.handled(pressed(code, false, shift, false));
            &&& w == v.silent().following().with_editor(w.editor)
            &&& effect == EffectView::Nothing
            &&& w.editor == match code {
                KeyCode::Char(c) => v.editor.typed(c),
                KeyCode::Enter => v.editor.newline_entered(v.theme.hard_breaks),
                KeyCode::Tab => v.editor.inserted("\t"@),
                KeyCode::Backspace => v.editor.removed(v.editor.backspace_range()),
                _ => v.editor.removed(v.editor.delete_range()),
            }
        }),
{
    let key = pressed(code, false, shift, false);
    lemma_plain_keys_reach_the_preset(v, key);
    reveal(AppView::preset_key);
    reveal(AppView::standard_key);
    reveal(AppView::vim_key);
    reveal(AppView::vim_insert_key);
    reveal(AppView::modeless_key);
    reveal(AppView::typed_key);
    reveal(AppView::entered);
}

/// Ctrl-H is a Backspace wherever text is typed.
#[verifier::spinoff_prover]
pub proof fn lemma_control_h_deletes(v: AppView)
    requires
        at_the_document(v),
        v.desk.mode == Mode::Insert,
    ensures
        v.handled(pressed(KeyCode::Char('h'), true, false, false)).0.editor == v.editor.removed(
            v.editor.backspace_range(),
        ),
{
    reveal(AppView::handled);
    reveal(AppView::document_key);
    reveal(AppView::editing_key);
    reveal(AppView::typing_key);
}

/// In Vim's normal mode `n` leads to the next match of what was looked for last and `N` to
/// the one before, without selecting it.
#[verifier::spinoff_prover]
pub proof fn lemma_vim_looks_again(v: AppView)
    requires
        at_the_document(v),
        v.desk.preset == Preset::Vim,
        v.desk.mode == Mode::Normal,
        v.desk.pending is None,
        v.last_search.len() > 0,
    ensures
        v.handled(pressed(KeyCode::Char('n'), false, false, false)).0.editor
            == v.editor.match_stepped(v.search_key(v.last_search), true, false).0,
        v.handled(pressed(KeyCode::Char('N'), false, false, false)).0.editor
            == v.editor.match_stepped(v.search_key(v.last_search), false, false).0,
{
    lemma_vim_letter_is_reached(v, 'n');
    lemma_vim_letter_is_reached(v, 'N');
    reveal(AppView::vim_letter);
    reveal(AppView::found_next);
    reveal(AppView::stepped);
}

} // verus!
