//! What the mouse and the commands come to.

use vstd::prelude::*;
use vstd::utf8::*;

use crate::action::Action;
use crate::app::menu::{lemma_themes_are_listed_once, other_variant, theme_stepped};
use crate::app::palette::picker_after;
use crate::app::mouse::{MouseInput, MouseKind};
use crate::app::{AppView, Desk, EffectView, LineNumbers, Menu, Mode, PickerView, Preset, PromptState};
use crate::bytes::{boundary, text_between};
use crate::diagnostics::DiagnosticView;
use crate::editor::{lemma_floor_boundary, lemma_replaced_bytes};
use crate::laws::lemma_text_is_put_in;
use crate::line_input::{Key, KeyCode};
use crate::live::{Live, LiveRowView};
use crate::markdown::theme::{ThemeName, ThemeVariant};
use crate::matches::SearchOptions;
use crate::navigation::{followed, FollowView};
use crate::outline::outline_matches;
use crate::rope::{line_count, line_start};
use crate::strings::{byte_len, has_char};

verus! {

/// Something that happened with the mouse at a place on screen.
pub open spec fn mouse(kind: MouseKind, column: u16, row: u16) -> MouseInput {
    MouseInput { kind, column, row }
}

/// A turn of the wheel scrolls by three rows, but not past either end of the page; the
/// document, the cursor and the selection stay, and the view stops following the cursor.
#[verifier::spinoff_prover]
pub proof fn lemma_the_wheel_scrolls(v: AppView, page: Live, x: u16, y: u16)
    requires
        !v.list_open(),
        v.desk.menu is None,
        v.desk.mode != Mode::Read,
    ensures
        ({
            let up = v.moused(page, mouse(MouseKind::ScrollUp, x, y));
            let down = v.moused(page, mouse(MouseKind::ScrollDown, x, y));
            let at = v.desk.scroll_y as int;
            let last = page.rows.len() - v.desk.height();
            &&& up.editor == v.editor && down.editor == v.editor
            &&& !up.desk.follow_cursor && !down.desk.follow_cursor
            &&& at <= last && at >= 3 ==> up.desk.scroll_y == at - 3
            &&& at < 3 ==> up.desk.scroll_y == 0
            &&& at + 3 <= last && at + 3 <= usize::MAX ==> down.desk.scroll_y == at + 3
            &&& 0 <= last < at + 3 && last <= usize::MAX ==> down.desk.scroll_y == last
            &&& last < 0 ==> down.desk.scroll_y == 0
        }),
{
    reveal(AppView::moused);
    reveal(AppView::wheel_turned);
}

/// A press on a row of the source puts the cursor there, with nothing selected; the text
/// stays, and the view follows.
#[verifier::spinoff_prover]
pub proof fn lemma_a_press_puts_the_cursor(v: AppView, page: Live, x: u16, y: u16, row: int)
    requires
        v.clickable(y),
        v.desk.scroll_y + y < page.rows.len() <= usize::MAX,
        page.rows[v.desk.scroll_y + y] == LiveRowView::Source(row),
        x >= v.desk.left_offset,
    ensures
        ({
            let w = v.moused(page, mouse(MouseKind::Press, x, y));
            let byte = v.editor.layout().byte_at(row, x - v.desk.left_offset) as usize;
            &&& w.editor.doc == v.editor.doc
            &&& w.editor.cursor.byte == byte
            &&& w.editor.selection() is None
            &&& w.desk.follow_cursor
            &&& w.desk.mouse_press_byte == Some(byte)
            &&& w.desk.mode == if v.desk.mode == Mode::Visual {
                Mode::Normal
            } else {
                v.desk.mode
            }
        }),
{
    reveal(AppView::moused);
    reveal(AppView::pressed);
}

/// A drag to a row of the source selects everything between where the button went down and
/// the mouse, with the cursor at the mouse; with Vim's keys that is the visual mode.
#[verifier::spinoff_prover]
pub proof fn lemma_a_drag_selects(v: AppView, page: Live, x: u16, y: u16, row: int, press: usize)
    requires
        v.clickable(y),
        v.desk.scroll_y + y < page.rows.len() <= usize::MAX,
        page.rows[v.desk.scroll_y + y] == LiveRowView::Source(row),
        x >= v.desk.left_offset,
        v.desk.mouse_press_byte == Some(press),
        boundary(v.editor.bytes(), press as int),
        0 <= v.editor.layout().byte_at(row, x - v.desk.left_offset) <= usize::MAX,
        v.editor.layout().byte_at(row, x - v.desk.left_offset) != press,
    ensures
        ({
            let w = v.moused(page, mouse(MouseKind::Drag, x, y));
            let byte = v.editor.layout().byte_at(row, x - v.desk.left_offset) as usize;
            &&& w.editor.doc == v.editor.doc
            &&& w.editor.cursor.byte == byte
            &&& w.editor.selection() == if press < byte {
                Some((press, byte))
            } else {
                Some((byte, press))
            }
            &&& v.desk.preset == Preset::Vim && v.desk.mode == Mode::Normal ==> w.desk.mode
                == Mode::Visual
        }),
{
    reveal(AppView::moused);
    reveal(AppView::dragged);
    encode_utf8_valid_utf8(v.editor.doc.text);
    lemma_floor_boundary(v.editor.bytes(), press as int);
}

/// Nothing is clicked where something is open over the document, nor in the preview.
#[verifier::spinoff_prover]
pub proof fn lemma_clicks_are_kept_from_the_document(v: AppView, page: Live, x: u16, y: u16)
    requires
        v.prompt is Some || v.palette is Some || v.outline is Some || v.diagnostics is Some
            || v.recent_picker is Some || v.desk.menu is Some || v.desk.mode == Mode::Read,
    ensures
        v.moused(page, mouse(MouseKind::Press, x, y)) == v,
        v.moused(page, mouse(MouseKind::Drag, x, y)) == v,
{
    reveal(AppView::moused);
    reveal(AppView::pressed);
    reveal(AppView::dragged);
}

/// Selecting everything selects from the beginning to the end, and changes nothing.
#[verifier::spinoff_prover]
pub proof fn lemma_everything_is_selected(v: AppView)
    requires
        v.desk.mode != Mode::Read,
        0 < v.editor.bytes().len() <= usize::MAX,
    ensures
        v.ran(Action::SelectAll).0.editor.selection() == Some(
            (0usize, v.editor.bytes().len() as usize),
        ),
        v.ran(Action::SelectAll).0.editor.doc == v.editor.doc,
{
    reveal(AppView::ran);
    reveal(AppView::text_command);
    reveal(AppView::view_command);
    reveal(AppView::all_selected);
}

/// Copying hands out what is selected, or the line of the cursor with its ending, and keeps
/// it; the document stays.
#[verifier::spinoff_prover]
pub proof fn lemma_the_selection_is_copied(v: AppView)
    requires
        v.desk.mode != Mode::Read,
    ensures
        ({
            let (w, effect) = v.ran(Action::Copy);
            let b = v.editor.bytes();
            let l = v.editor.cursor_line();
            &&& w.editor == v.editor
            &&& effect == EffectView::Copy(w.register)
            &&& w.register == match v.editor.selection() {
                Some((s, e)) => text_between(b, s as int, e as int),
                None => text_between(b, line_start(b, l), line_start(b, l + 1)),
            }
        }),
{
    reveal(AppView::ran);
    reveal(AppView::text_command);
    reveal(AppView::view_command);
    reveal(AppView::copied);
}

/// Cutting a selection within a line hands it out, keeps it, and takes it from the document,
/// with the cursor where it was.
#[verifier::spinoff_prover]
pub proof fn lemma_the_selection_is_cut(v: AppView, s: usize, e: usize)
    requires
        v.desk.mode != Mode::Read,
        v.editor.ok(),
        v.editor.has_room(v.editor.bytes().len() as int),
        v.editor.selection() == Some((s, e)),
        !has_char(text_between(v.editor.bytes(), s as int, e as int), '\n'),
    ensures
        ({
            let (w, effect) = v.ran(Action::Cut);
            let b = v.editor.bytes();
            &&& effect == EffectView::Copy(w.register)
            &&& w.register == text_between(b, s as int, e as int)
            &&& w.editor.bytes() == b.take(s as int) + b.skip(e as int)
            &&& w.editor.cursor.byte == s
            &&& w.editor.selection() is None
        }),
{
    reveal(AppView::ran);
    reveal(AppView::text_command);
    reveal(AppView::view_command);
    reveal(AppView::cut);
    reveal(AppView::cut_out);
    let b = v.editor.bytes();
    let none = Seq::<char>::empty();
    encode_utf8_valid_utf8(v.editor.doc.text);
    assert(encode_utf8(none) =~= Seq::<u8>::empty());
    crate::editor::lemma_slice_bytes(v.editor.doc.text, s as int, e as int);
    assert(b.subrange(s as int, e as int).len() > 0);
    if text_between(b, s as int, e as int).len() == 0 {
        assert(text_between(b, s as int, e as int) =~= none);
    }
    lemma_replaced_bytes(v.editor.run_ended(), s as int, e as int, none);
}

/// What is pasted is put in place of the selection, or at the cursor.
#[verifier::spinoff_prover]
pub proof fn lemma_text_is_pasted(v: AppView, text: Seq<char>)
    requires
        v.editor.ok(),
        text.len() > 0,
        v.editor.has_room((v.editor.bytes().len() + byte_len(text)) as int),
    ensures
        ({
            let w = v.pasted(text).editor;
            let b = v.editor.bytes();
            let (s, e) = match v.editor.selection() {
                Some((s, e)) => (s as int, e as int),
                None => (v.editor.cursor.byte as int, v.editor.cursor.byte as int),
            };
            &&& w.bytes() == b.take(s) + encode_utf8(text) + b.skip(e)
            &&& w.cursor.byte == s + byte_len(text)
        }),
{
    reveal(AppView::pasted);
    lemma_text_is_put_in(v.editor.run_ended(), text);
}

/// What shows the source as it is switches that, and nothing else but what is scrolled.
#[verifier::spinoff_prover]
pub proof fn lemma_the_raw_view_is_switched(v: AppView)
    ensures
        ({
            let d = v.ran(Action::ToggleRaw).0.desk;
            &&& d == (Desk {
                raw_view: !v.desk.raw_view,
                scroll_y: d.scroll_y,
                raw_scroll_y: d.raw_scroll_y,
                focus_scroll_y: d.focus_scroll_y,
                follow_cursor: d.follow_cursor,
                ..v.desk
            })
            &&& v.ran(Action::ToggleRaw).0.editor == v.editor
        }),
{
    reveal(AppView::ran);
    reveal(AppView::text_command);
    reveal(AppView::view_command);
    reveal(AppView::raw_toggled);
}

/// Each of these commands switches its own setting, and no other.
#[verifier::spinoff_prover]
pub proof fn lemma_settings_are_switched(v: AppView)
    ensures
        v.ran(Action::ToggleStats).0.desk == (Desk {
            show_status_stats: !v.desk.show_status_stats,
            ..v.desk
        }),
        v.ran(Action::ToggleStats).0.editor == v.editor,
        ({
            let d = v.ran(Action::ToggleCursor).0.desk;
            d.cursor_shape != v.desk.cursor_shape && d == (Desk {
                cursor_shape: d.cursor_shape,
                ..v.desk
            })
        }),
{
    reveal(AppView::ran);
    reveal(AppView::text_command);
    reveal(AppView::view_command);
    reveal(AppView::stats_toggled);
    reveal(AppView::shape_toggled);
}

/// Editing tables row by row is switched on in a table only, and off anywhere.
#[verifier::spinoff_prover]
pub proof fn lemma_table_rows_are_switched(v: AppView)
    requires
        v.desk.mode != Mode::Read,
    ensures
        ({
            let w = v.ran(Action::ToggleTable).0;
            &&& w.desk == (Desk {
                table_mode: v.editor.table() is Some && !v.desk.table_mode,
                ..v.desk
            })
            &&& w.editor == v.editor
        }),
{
    reveal(AppView::ran);
    reveal(AppView::text_command);
    reveal(AppView::view_command);
    reveal(AppView::table_toggled);
}

/// The preview is entered from where the document is edited, and left from there.
#[verifier::spinoff_prover]
pub proof fn lemma_the_preview_is_switched(v: AppView)
    ensures
        v.ran(Action::TogglePreview).0.desk.mode == Mode::Read <==> v.desk.mode != Mode::Read,
        v.ran(Action::TogglePreview).0.editor.doc == v.editor.doc,
{
    reveal(AppView::ran);
    reveal(AppView::text_command);
    reveal(AppView::view_command);
    reveal(AppView::preview_toggled);
    reveal(AppView::preview_left);
    reveal(AppView::edit_scroll_saved);
}

/// Following a link to a place in the document puts the cursor there; one to a web address is
/// asked about first, and opened on a yes and on Enter, but not on a no.
#[verifier::spinoff_prover]
pub proof fn lemma_links_are_opened(v: AppView, key: Key)
    requires
        v.desk.mode != Mode::Read,
    ensures
        ({
            let w = v.ran(Action::FollowLink).0;
            match followed(v.editor.doc.text, v.editor.cursor.byte as int) {
                FollowView::Jump(byte) => w.editor.cursor.byte == byte && w.editor.selection()
                    is None && w.editor.doc == v.editor.doc,
                FollowView::External(url) => {
                    &&& w.prompt == Some(PromptState::OpenUrl { url })
                    &&& key.code == KeyCode::Char('y') || key.code == KeyCode::Char('Y') || key.code
                        == KeyCode::Enter ==> w.prompt_key(key).1 == EffectView::OpenUrl(url)
                    &&& key.code == KeyCode::Char('n') || key.code == KeyCode::Char('N') || key.code
                        == KeyCode::Esc ==> w.prompt_key(key).1 == EffectView::Nothing
                        && w.prompt_key(key).0.prompt is None
                },
                FollowView::Say(text) => w.status == Some(text) && w.editor == v.editor,
            }
        }),
{
    reveal(AppView::ran);
    reveal(AppView::text_command);
    reveal(AppView::view_command);
    reveal(AppView::link_followed);
    reveal(AppView::jumped);
    reveal(AppView::prompt_key);
    reveal(AppView::url_answered);
}

/// Asked whether to quit: a yes quits without saving, `w` saves first, and a no stays.
#[verifier::spinoff_prover]
pub proof fn lemma_quitting_is_answered(v: AppView, key: Key)
    requires
        v.prompt == Some(PromptState::ConfirmQuit),
    ensures
        ({
            let (w, effect) = v.prompt_key(key);
            let yes = key.code == KeyCode::Char('y') || key.code == KeyCode::Char('Y');
            let save = key.code == KeyCode::Char('w') || key.code == KeyCode::Char('W');
            let no = key.code == KeyCode::Char('n') || key.code == KeyCode::Char('N') || key.code
                == KeyCode::Esc;
            &&& yes ==> w.desk.should_quit && effect == EffectView::Nothing
            &&& save && v.editor.doc.path is Some ==> effect == EffectView::CheckDisk
                && w.desk.should_quit == v.desk.should_quit
            &&& no ==> w.prompt is None && effect == EffectView::Nothing && w.desk == v.desk
            &&& !yes && !save && !no ==> w == v && effect == EffectView::Nothing
            &&& w.editor == v.editor
        }),
{
    reveal(AppView::prompt_key);
    reveal(AppView::quit_answered);
    reveal(AppView::save_begun);
    reveal(AppView::save_as_opened);
}

/// The presets follow each other around, and back.
pub proof fn lemma_presets_go_around(p: Preset)
    ensures
        p.next().next().next().next() == p,
        p.next() != p,
        p.next().next() != p,
        p.next().prev() == p,
        p.prev().next() == p,
{
}

/// The kinds of line numbers follow each other around, and back.
pub proof fn lemma_line_numbers_go_around(n: LineNumbers)
    ensures
        n.stepped(true) != n,
        n.stepped(true).stepped(true) != n,
        n.stepped(true).stepped(true).stepped(true) == n,
        n.stepped(true).stepped(false) == n,
        n.stepped(false).stepped(true) == n,
{
}

/// In the settings, up and down go through the five rows, and no further.
#[verifier::spinoff_prover]
pub proof fn lemma_settings_rows(v: AppView, m: Menu, key: Key)
    requires
        v.desk.menu == Some(m),
        m.focus <= 4,
        !key.ctrl(),
    ensures
        key.code == KeyCode::Up || key.code == KeyCode::Char('k') ==> v.menu_key(key).0.desk.menu
            == Some(
            Menu {
                focus: if m.focus == 0 {
                    0
                } else {
                    (m.focus - 1) as usize
                },
                ..m
            },
        ),
        key.code == KeyCode::Down || key.code == KeyCode::Char('j') ==> v.menu_key(key).0.desk.menu
            == Some(
            Menu {
                focus: if m.focus == 4 {
                    4
                } else {
                    (m.focus + 1) as usize
                },
                ..m
            },
        ),
{
    reveal(AppView::menu_key);
}

/// A row of the settings steps forth with right and `l`, and back with left and `h`.
pub open spec fn steps(key: Key, forward: bool) -> bool {
    if forward {
        key.code == KeyCode::Right || key.code == KeyCode::Char('l')
    } else {
        key.code == KeyCode::Left || key.code == KeyCode::Char('h')
    }
}

/// The first row of the settings steps through the presets.
#[verifier::spinoff_prover]
pub proof fn lemma_settings_presets(v: AppView, m: Menu, key: Key, forward: bool)
    requires
        v.desk.menu == Some(m),
        m.focus == 0,
        v.desk.mode != Mode::Read,
        steps(key, forward),
    ensures
        ({
            let w = v.menu_key(key).0;
            &&& w.desk.preset == if forward {
                v.desk.preset.next()
            } else {
                v.desk.preset.prev()
            }
            &&& w.desk.mode == Mode::Normal <==> w.desk.preset == Preset::Vim
            &&& w.desk.mode == Mode::Insert <==> w.desk.preset != Preset::Vim
            &&& w.desk.menu == Some(m)
            &&& w.desk.line_numbers == v.desk.line_numbers
            &&& w.theme == v.theme
        }),
{
    reveal(AppView::menu_key);
    reveal(AppView::menu_adjusted);
    reveal(AppView::preset_set);
}

/// The fourth row of the settings steps through the kinds of line numbers.
#[verifier::spinoff_prover]
pub proof fn lemma_settings_line_numbers(v: AppView, m: Menu, key: Key, forward: bool)
    requires
        v.desk.menu == Some(m),
        m.focus == 3,
        steps(key, forward),
    ensures
        v.menu_key(key).0.desk == (Desk {
            line_numbers: v.desk.line_numbers.stepped(forward),
            ..v.desk
        }),
        v.menu_key(key).0.theme == v.theme,
{
    reveal(AppView::menu_key);
    reveal(AppView::menu_adjusted);
}

/// The second and the third row of the settings change the theme and its appearance, and
/// each of them keeps the other.
#[verifier::spinoff_prover]
pub proof fn lemma_settings_themes(v: AppView, m: Menu, key: Key, forward: bool)
    requires
        v.desk.menu == Some(m),
        m.focus == 1 || m.focus == 2,
        steps(key, forward),
    ensures
        v.menu_key(key).0 == v.theme_applied(
            if m.focus == 1 {
                theme_stepped(v.theme.name, forward)
            } else {
                v.theme.name
            },
            if m.focus == 1 {
                v.theme.variant
            } else {
                other_variant(v.theme.variant)
            },
        ),
        v.menu_key(key).0.desk == v.desk,
        other_variant(v.theme.variant) != v.theme.variant,
        theme_stepped(theme_stepped(v.theme.name, forward), !forward) == v.theme.name,
        theme_stepped(v.theme.name, forward) != v.theme.name,
{
    reveal(AppView::menu_key);
    reveal(AppView::menu_adjusted);
    lemma_themes_keep_the_rest(
        v,
        if m.focus == 1 {
            theme_stepped(v.theme.name, forward)
        } else {
            v.theme.name
        },
        if m.focus == 1 {
            v.theme.variant
        } else {
            other_variant(v.theme.variant)
        },
    );
    lemma_themes_step_back(v.theme.name, forward);
}

/// A theme changes nothing but the theme.
#[verifier::spinoff_prover]
pub proof fn lemma_themes_keep_the_rest(v: AppView, name: ThemeName, variant: ThemeVariant)
    ensures
        v.theme_applied(name, variant) == (AppView {
            theme: v.theme_applied(name, variant).theme,
            ..v
        }),
{
    reveal(AppView::theme_applied);
}

#[verifier::spinoff_prover]
proof fn lemma_themes_step_back(name: ThemeName, forward: bool)
    ensures
        theme_stepped(theme_stepped(name, forward), !forward) == name,
        theme_stepped(name, forward) != name,
{
    let o = ThemeName::order();
    lemma_themes_are_listed_once(name);
    let next = theme_stepped(name, forward);
    lemma_themes_are_listed_once(next);
    let i = choose|i: int| 0 <= i < o.len() && #[trigger] o[i] == name;
    let j = choose|j: int| 0 <= j < o.len() && #[trigger] o[j] == next;
    assert(o[i] == name);
    assert(j == crate::app::menu::wrapped(i, o.len() as int, forward));
}

/// Enter in the outline goes to the line of the heading that is selected, and closes it.
#[verifier::spinoff_prover]
pub proof fn lemma_headings_are_gone_to(v: AppView, key: Key)
    requires
        v.outline is Some,
        key.code == KeyCode::Enter,
        v.outline->0.selected < outline_matches(
            v.editor.with_blocks().headings(),
            v.outline->0.query,
        ).len(),
    ensures
        ({
            let w = v.outline_key(key);
            let h = v.editor.with_blocks().headings();
            let line = h[outline_matches(h, v.outline->0.query)[v.outline->0.selected as int]].line;
            let b = v.editor.bytes();
            &&& w.outline is None
            &&& line <= line_count(b) ==> w.editor.cursor.byte == line_start(b, line as int) as usize
            &&& w.editor.selection() is None
            &&& w.editor.doc == v.editor.doc
            &&& w.desk.mode != Mode::Read
            &&& w.desk.follow_cursor
        }),
{
    reveal(AppView::outline_key);
    reveal(AppView::jumped);
}

/// Enter in the list of diagnostics goes to the line of the one that is selected, and closes
/// the list.
#[verifier::spinoff_prover]
pub proof fn lemma_diagnostics_are_gone_to(v: AppView, key: Key, item: DiagnosticView)
    requires
        v.diagnostics is Some,
        key.code == KeyCode::Enter,
        v.diagnostics->0.selected < v.diagnostics->0.items.len(),
        v.diagnostics->0.items[v.diagnostics->0.selected as int] == item,
    ensures
        ({
            let w = v.diagnostics_key(key);
            let b = v.editor.bytes();
            &&& w.diagnostics is None
            &&& 0 <= item.line <= line_count(b) ==> w.editor.cursor.byte == line_start(b, item.line) as usize
            &&& w.editor.selection() is None
            &&& w.editor.doc == v.editor.doc
            &&& w.desk.mode != Mode::Read
        }),
{
    reveal(AppView::diagnostics_key);
    reveal(AppView::jumped);
    reveal(AppView::preview_left);
}

/// With Alt, `c`, `w`, `r` and `s` in a search switch case, whole words, regular expressions
/// and the scope of the search, the last only where there is a selection to search.
#[verifier::spinoff_prover]
pub proof fn lemma_search_options_are_switched(v: AppView, key: Key, input: Seq<char>, cursor: int)
    requires
        v.prompt == Some(PromptState::Find { input, cursor }),
        key.alt,
    ensures
        ({
            let w = v.prompt_key(key).0;
            let o = v.desk.search_options;
            let n = w.desk.search_options;
            &&& key.code == KeyCode::Char('c') ==> n == (SearchOptions {
                case_sensitive: !o.case_sensitive,
                ..o
            })
            &&& key.code == KeyCode::Char('w') ==> n == (SearchOptions {
                whole_word: !o.whole_word,
                ..o
            })
            &&& key.code == KeyCode::Char('r') ==> n == (SearchOptions { regex: !o.regex, ..o })
            &&& key.code == KeyCode::Char('s') ==> n == (SearchOptions {
                selection_only: v.find_scope is Some && !o.selection_only,
                ..o
            })
            &&& key.code == KeyCode::Char('c') || key.code == KeyCode::Char('w') || key.code
                == KeyCode::Char('r') || key.code == KeyCode::Char('s') ==> w.prompt == v.prompt
                && w.editor.doc == v.editor.doc
        }),
{
    reveal(AppView::prompt_key);
    reveal(AppView::find_typed);
    reveal(crate::editor::EditorView::found_from);
}

/// In a search, Enter and down lead to the next match and up to the one before; Tab goes on
/// to what the matches are replaced by, and Escape leaves.
#[verifier::spinoff_prover]
pub proof fn lemma_search_keys(v: AppView, key: Key, input: Seq<char>, cursor: int)
    requires
        v.prompt == Some(PromptState::Find { input, cursor }),
        !key.alt,
    ensures
        ({
            let w = v.prompt_key(key).0;
            let e = v.editor;
            let k = v.search_key(input);
            &&& key.code == KeyCode::Enter || key.code == KeyCode::Down ==> w.editor
                == e.match_stepped(k, true, true).0 && w.prompt == v.prompt
            &&& key.code == KeyCode::Up ==> w.editor == e.match_stepped(k, false, true).0 && w.prompt
                == v.prompt
            &&& key.code == KeyCode::Tab && input.len() > 0 ==> w.prompt == Some(
                PromptState::Replace { query: input, input: Seq::empty(), cursor: 0 },
            ) && w.editor == e
            &&& key.code == KeyCode::Esc ==> w.prompt is None && w.last_search == input
        }),
{
    reveal(AppView::prompt_key);
    reveal(AppView::find_typed);
    reveal(AppView::find_given_up);
    reveal(AppView::stepped);
}

/// While matches are replaced, Enter replaces the one that is selected and goes on to the
/// next, Ctrl-A replaces every one of them, and Tab goes back to the search.
#[verifier::spinoff_prover]
pub proof fn lemma_replace_keys(
    v: AppView,
    key: Key,
    query: Seq<char>,
    input: Seq<char>,
    cursor: int,
)
    requires
        v.prompt == Some(PromptState::Replace { query, input, cursor }),
        !key.alt,
    ensures
        ({
            let w = v.prompt_key(key).0;
            let k = v.search_key(query);
            &&& key.code == KeyCode::Char('a') && key.control ==> w.editor == v.editor.matches_replaced(
                k,
                input,
            ) && w.prompt is None
            &&& key.code == KeyCode::Enter && v.editor.selected_match(k) is None ==> w.editor
                == v.editor.match_replaced(k, input).match_stepped(k, true, true).0 && w.prompt
                == v.prompt
            &&& key.code == KeyCode::Tab ==> w.prompt == Some(
                PromptState::Find { input: query, cursor: byte_len(query) as int },
            ) && w.editor == v.editor
            &&& key.code == KeyCode::Esc ==> w.prompt is None
        }),
{
    reveal(AppView::prompt_key);
    reveal(AppView::replace_typed);
    reveal(AppView::find_given_up);
    reveal(AppView::current_replaced);
    reveal(AppView::all_replaced);
    reveal(AppView::stepped);
}

/// Asked what to do about a file that changed on disk: `r` reads it again, `o` writes over
/// it, and Escape does neither.
#[verifier::spinoff_prover]
pub proof fn lemma_a_changed_file_is_answered(v: AppView, key: Key, error: Option<Seq<char>>)
    requires
        v.prompt == Some(PromptState::ExternalChange { error }),
    ensures
        ({
            let (w, effect) = v.prompt_key(key);
            &&& key.code == KeyCode::Char('r') || key.code == KeyCode::Char('R') ==> effect
                == EffectView::Reload
            &&& key.code == KeyCode::Char('o') || key.code == KeyCode::Char('O') ==> effect
                == EffectView::Write
            &&& key.code == KeyCode::Esc ==> effect == EffectView::Nothing && w.prompt is None
            &&& w.editor == v.editor
        }),
{
    reveal(AppView::prompt_key);
    reveal(AppView::change_answered);
}

/// A file is written over on a yes only, and moved to the trash on a yes only and where
/// nothing is unsaved.
#[verifier::spinoff_prover]
pub proof fn lemma_files_are_lost_on_a_yes_only(v: AppView, key: Key)
    ensures
        ({
            let (w, effect) = v.prompt_key(key);
            let yes = key.code == KeyCode::Char('y') || key.code == KeyCode::Char('Y');
            &&& v.prompt matches Some(PromptState::Overwrite { path, input }) ==> (effect == if yes {
                EffectView::WriteAs(path)
            } else {
                EffectView::Nothing
            })
            &&& v.prompt == Some(PromptState::TrashFile) ==> (effect == if yes
                && !v.editor.doc.modified && v.editor.doc.path is Some {
                EffectView::Trash
            } else {
                EffectView::Nothing
            })
        }),
{
    reveal(AppView::prompt_key);
    reveal(AppView::overwrite_answered);
    reveal(AppView::trash_answered);
}

/// Enter in the palette runs the command that is selected, if it can be run, and closes the
/// palette; Escape only closes it.
#[verifier::spinoff_prover]
pub proof fn lemma_the_palette_runs_commands(v: AppView, key: Key, action: Action)
    requires
        v.palette is Some,
        v.palette_choice(v.palette->0) == Some(action),
    ensures
        key.code == KeyCode::Enter && v.enabled(action) ==> v.palette_key(key) == (AppView {
            palette: None,
            ..v
        }).ran(action),
        key.code == KeyCode::Esc ==> v.palette_key(key) == (
            AppView { palette: None, ..v },
            EffectView::Nothing,
        ),
{
    reveal(AppView::palette_key);
}

/// In a list, what is typed narrows it, from its first entry on, Backspace takes the last
/// character back, and the arrows go through the entries.
pub proof fn lemma_lists_are_narrowed(p: PickerView, key: Key, c: char, len: int)
    requires
        !key.control,
        !key.command,
    ensures
        key.code == KeyCode::Char(c) ==> picker_after(p, key, len) == (PickerView {
            query: p.query.push(c),
            selected: 0,
        }),
        key.code == KeyCode::Down && p.selected + 1 < len <= usize::MAX ==> picker_after(p, key, len)
            == (PickerView { selected: (p.selected + 1) as usize, ..p }),
        key.code == KeyCode::Up && 0 < p.selected < len <= usize::MAX ==> picker_after(p, key, len)
            == (PickerView { selected: (p.selected - 1) as usize, ..p }),
        key.code == KeyCode::Enter ==> picker_after(p, key, len) == p,
{
}

} // verus!
