//! The application: keys, mouse, prompts and views.

use marqi::action::Action;
use marqi::app::mouse::{MouseInput, MouseKind};
use marqi::app::rows::Assembled;
use marqi::app::{App, CursorShape, Effect, LineNumbers, Mode, Preset};
use marqi::buffer::TextBuffer;
use marqi::clipboard::Clipboard;
use marqi::color::parse_hex;
use marqi::config::Config;
use marqi::line_input::{Key, KeyCode};
use marqi::live::{LiveRow, LiveView};
use marqi::markdown::highlight::CodeHighlighter;
use marqi::markdown::theme::{MarkdownTheme, ThemeName, ThemeVariant};
use marqi::ui::{open_picker, picker_lines};

const SHIFT: u8 = 1;
const CTRL: u8 = 2;
const ALT: u8 = 4;
const SUPER: u8 = 8;

fn theme() -> MarkdownTheme {
    MarkdownTheme::named(ThemeName::Marqi, ThemeVariant::Dark, true)
}

fn app() -> App {
    let mut a = App::new(TextBuffer::empty(), theme(), true);
    a.set_viewport(20, 10);
    a
}

fn app_with(src: &str) -> App {
    let mut a = App::new(TextBuffer::scratch(src, "test.md"), theme(), true);
    a.clipboard = Clipboard::internal_only();
    a.set_viewport(40, 10);
    a
}

fn vim_app() -> App {
    let mut cfg = Config::default();
    cfg.editor.keybindings = "vim".to_owned();
    let mut a = App::with_config(TextBuffer::empty(), &cfg, ThemeVariant::Dark, true);
    a.clipboard = Clipboard::internal_only();
    a.set_viewport(20, 10);
    a
}

fn settle(a: &mut App, effect: Effect) {
    if let Effect::Paste = effect {
        a.paste(None);
    }
}

fn press_mod(a: &mut App, code: KeyCode, mods: u8) {
    let effect = a.handle_key(Key {
        code,
        control: mods & CTRL != 0,
        shift: mods & SHIFT != 0,
        alt: mods & ALT != 0,
        command: mods & SUPER != 0,
    });
    settle(a, effect);
}

fn press(a: &mut App, code: KeyCode) {
    press_mod(a, code, 0);
}

fn type_str(a: &mut App, s: &str) {
    for c in s.chars() {
        press(a, KeyCode::Char(c));
    }
}

fn run(a: &mut App, action: Action) {
    let effect = a.run_action(action);
    settle(a, effect);
}

fn mouse(kind: MouseKind, column: u16, row: u16) -> MouseInput {
    MouseInput { kind, column, row }
}

fn page(a: &mut App) -> LiveView {
    a.live_view(&mut CodeHighlighter::new(None, Vec::new(), true))
}

fn visible(a: &mut App) -> Assembled {
    let view = page(a);
    a.visible_rows(&view)
}

fn all_rows(a: &mut App) -> Assembled {
    let view = page(a);
    a.assemble_rows(&view, 0, view.rows.len())
}

fn shown(rows: &Assembled) -> Vec<String> {
    rows.lines
        .iter()
        .map(|l| l.spans.iter().map(|s| s.text.as_str()).collect())
        .collect()
}

fn scroll(a: &mut App) {
    let view = page(a);
    a.scroll_to_cursor(&view);
}

fn click(a: &mut App, event: MouseInput) {
    let view = page(a);
    a.handle_mouse(&view, event);
}

fn text(a: &App) -> String {
    a.editor.text()
}

fn cur(a: &App) -> usize {
    a.editor.cursor().byte
}

fn put(a: &mut App, byte: usize) {
    a.editor.place_cursor(byte);
}

fn line_of(a: &App) -> usize {
    a.editor.cursor_line()
}

fn line_at(a: &App, line: usize) -> usize {
    a.editor.line_begin(line)
}

fn starts(a: &mut App, query: &str) -> Vec<usize> {
    a.search_matches(query).iter().map(|m| m.start).collect()
}

/// `lines` lines of exactly `line_len` letters each.
fn ascii(lines: usize, line_len: usize) -> String {
    let mut out = String::new();
    for i in 0..lines {
        for j in 0..line_len {
            out.push(char::from(b'a' + ((i + j) % 26) as u8));
        }
        out.push('\n');
    }
    out
}

/// `n` markdown blocks of every kind, separated by blank lines.
fn many_blocks(n: usize) -> String {
    let mut out = String::new();
    for i in 0..n {
        match i % 12 {
            0 => out.push_str(&format!("# Heading {i}\n")),
            1 => out.push_str(&format!(
                "Paragraph {i} with **bold**, *italic*, `code`, and a [ref link][r{}].\n",
                i % 3
            )),
            2 => out.push_str("- bullet one\n- bullet two\n  - nested\n"),
            3 => out.push_str(&format!("1. first {i}\n2. second\n3. third\n")),
            4 => out.push_str("- [ ] open task\n- [x] done task\n"),
            5 => out.push_str("```rust\nfn main() {\n    println!(\"hi\");\n}\n```\n"),
            6 => out.push_str("> quoted text\n> > nested quote\n"),
            7 => out.push_str("| a | b |\n| --- | ---: |\n| 1 | 2 |\n"),
            8 => out.push_str(&format!("[r{}]: https://example.com/{i}\n", i % 3)),
            9 => out.push_str(&format!("Setext heading {i}\n===\n")),
            10 => out.push_str(&format!("Footnote use[^f{i}].\n\n[^f{i}]: its definition\n")),
            _ => out.push_str("---\n"),
        }
        out.push('\n');
    }
    out
}

#[test]
fn actions_share_editor_behavior() {
    let mut a = app_with("text");
    run(&mut a, Action::ToggleRaw);
    assert!(a.raw_view());
    run(&mut a, Action::SelectAll);
    assert_eq!(a.selection_range(), Some((0, 4)));
}

#[test]
fn command_palette_filters_and_runs_actions() {
    let mut a = app_with("text");
    press_mod(
        &mut a,
        KeyCode::Char('p'),
        CTRL | SHIFT,
    );
    assert!(a.palette_open());
    type_str(&mut a, "raw");
    let items = a.palette_items();
    assert_eq!(items.first().unwrap().action, Action::ToggleRaw);
    press(&mut a, KeyCode::Enter);
    assert!(a.raw_view());
    assert!(!a.palette_open());
}

#[test]
fn function_keys_double_the_shift_chords() {
    let mut a = app_with("# Title\n\ntext");
    press(&mut a, KeyCode::F(1));
    assert!(a.palette_open());
    press(&mut a, KeyCode::Esc);
    press(&mut a, KeyCode::F(2));
    assert!(a.outline_open());
    press(&mut a, KeyCode::Esc);
    press(&mut a, KeyCode::F(12));
    assert!(a.prompt_view().unwrap().text.starts_with("Save as"));
    press(&mut a, KeyCode::Esc);

    run(&mut a, Action::TogglePreview);
    press(&mut a, KeyCode::F(1));
    assert!(a.palette_open());
}

#[test]
fn command_palette_keeps_disabled_actions_open() {
    let mut a = app_with("text");
    run(&mut a, Action::TogglePreview);
    run(&mut a, Action::CommandPalette);
    type_str(&mut a, "cut");
    let items = a.palette_items();
    assert_eq!(items.first().unwrap().action, Action::Cut);
    assert!(!items.first().unwrap().enabled);
    press(&mut a, KeyCode::Enter);
    assert!(a.palette_open());
}

#[test]
fn formatting_actions_wrap_selection_as_one_undo_step() {
    let mut a = app_with("word");
    a.editor.set_anchor(Some(0));
    put(&mut a, 4);
    run(&mut a, Action::Bold);
    assert_eq!(text(&a), "**word**");
    run(&mut a, Action::Undo);
    assert_eq!(text(&a), "word");
}

#[test]
fn formatting_actions_insert_links_and_inline_pairs() {
    let mut a = app_with("label");
    a.editor.set_anchor(Some(0));
    put(&mut a, 5);
    run(&mut a, Action::Link);
    assert_eq!(text(&a), "[label]()");
    assert_eq!(cur(&a), 8);

    run(&mut a, Action::InlineCode);
    let tick = char::from(96);
    assert_eq!(
        text(&a),
        format!("[label]({tick}{tick})")
    );
    assert_eq!(cur(&a), 9);
}

#[test]
fn formatting_actions_preserve_indentation_and_line_endings() {
    let mut a = app_with("  title\r\nnext\r\n");
    run(&mut a, Action::CycleHeading);
    assert_eq!(text(&a), "  # title\r\nnext\r\n");
    run(&mut a, Action::ToggleQuote);
    assert_eq!(text(&a), "  > # title\r\nnext\r\n");
    run(&mut a, Action::ToggleBullet);
    assert_eq!(text(&a), "  - > # title\r\nnext\r\n");
}

#[test]
fn task_action_preserves_existing_list_markers() {
    let mut a = app_with("  * [ ] task\r\n");
    run(&mut a, Action::ToggleTask);
    assert_eq!(text(&a), "  * [x] task\r\n");
    run(&mut a, Action::ToggleTask);
    assert_eq!(text(&a), "  * [ ] task\r\n");

    let mut ordered = app_with("1. task\n");
    run(&mut ordered, Action::ToggleTask);
    assert_eq!(text(&ordered), "1. [ ] task\n");
}

#[test]
fn clicks_ignore_prompts_and_literal_checkbox_glyphs() {
    let mut a = app_with("■ raw\n");
    put(&mut a, 0);
    a.set_viewport(40, 10);
    click(&mut a, mouse(MouseKind::Press, 0, 0));
    assert_eq!(text(&a), "■ raw\n");

    let mut a = app_with("text");
    a.set_viewport(40, 10);
    type_str(&mut a, "x");
    press_mod(&mut a, KeyCode::Char('q'), CTRL);
    assert!(a.prompt_view().is_some());
    let before = cur(&a);
    click(&mut a, mouse(MouseKind::Press, 0, 0));
    assert_eq!(cur(&a), before);
    assert!(a.prompt_view().is_some());
}

#[test]
fn outline_filters_headings_and_jumps_to_source() {
    let mut a = app_with("# First\n\nbody\n\nSecond\n------\n\n### Third\n");
    press_mod(
        &mut a,
        KeyCode::Char('o'),
        CTRL | SHIFT,
    );
    assert!(a.outline_open());
    let items = a.outline_items();
    assert_eq!(
        items
            .iter()
            .map(|item| (item.level, item.title.as_str()))
            .collect::<Vec<_>>(),
        [(1, "First"), (2, "Second"), (3, "Third")]
    );

    type_str(&mut a, "sec");
    let items = a.outline_items();
    assert_eq!(items.len(), 1);
    assert_eq!(items[0].title, "Second");
    press(&mut a, KeyCode::Enter);

    assert!(!a.outline_open());
    assert_eq!(line_of(&a), 4);
}

#[test]
fn diagnostics_open_from_an_action_and_jump_to_the_issue() {
    let mut a = app_with("# Same\ntext\n# Same\n");

    run(&mut a, Action::Diagnostics);
    assert!(a.diagnostics_open());
    let items = a.diagnostic_items();
    assert_eq!(items.len(), 1);
    assert_eq!(items[0].line, 2);

    press(&mut a, KeyCode::Enter);
    assert!(!a.diagnostics_open());
    assert_eq!(a.cursor_line_col().0, 3);
}

#[test]
fn follow_link_resolves_references_and_confirms_external_urls() {
    let mut a = app_with("See [site][docs].\n\n[docs]: https://example.com\n");
    put(&mut a, 6);
    run(&mut a, Action::FollowLink);
    let prompt = a.prompt_view().expect("external URL confirmation");
    assert!(prompt.text.contains("https://example.com"));
    press(&mut a, KeyCode::Char('n'));
    assert_eq!(a.status.as_deref(), Some("Open cancelled"));
}

#[test]
fn follow_link_moves_between_footnote_reference_and_definition() {
    let source = "Text[^note].\n\n[^note]: Footnote text\n";
    let mut a = app_with(source);
    put(&mut a, source.find("[^note]").unwrap());
    run(&mut a, Action::FollowLink);
    assert_eq!(line_of(&a), 2);

    run(&mut a, Action::FollowLink);
    assert_eq!(cur(&a), source.find("[^note]").unwrap());
}

#[test]
fn follow_link_reports_when_nothing_is_available() {
    let mut a = app_with("plain text");
    run(&mut a, Action::FollowLink);
    assert_eq!(
        a.status.as_deref(),
        Some("No link or footnote under cursor")
    );
}

#[test]
fn document_statistics_include_the_selection() {
    let mut a = app_with("one two\nthree");
    run(&mut a, Action::ToggleStats);
    assert_eq!(a.status_stats_text().as_deref(), Some("3w · 13c · 1m"));
    a.editor.set_anchor(Some(0));
    put(&mut a, 3);
    assert_eq!(
        a.status_stats_text().as_deref(),
        Some("3w · 13c · 1m · 3 selected")
    );
}

#[test]
fn document_statistics_update_after_edits() {
    let mut a = app_with("one two");
    run(&mut a, Action::ToggleStats);
    assert_eq!(a.status_stats_text().as_deref(), Some("2w · 7c · 1m"));
    let at = a.editor.buffer().len_bytes();
    put(&mut a, at);
    type_str(&mut a, " three");
    assert_eq!(a.status_stats_text().as_deref(), Some("3w · 13c · 1m"));
}

#[test]
fn typing_inserts_and_advances_cursor() {
    let mut a = app();
    type_str(&mut a, "hi");
    assert_eq!(text(&a), "hi");
    assert_eq!(cur(&a), 2);
}

#[test]
fn standard_is_default_and_uses_common_shortcuts() {
    let mut a = app();
    a.clipboard = Clipboard::internal_only();
    assert_eq!(a.desk.preset, Preset::Standard);
    assert_eq!(a.desk.mode, Mode::Insert);

    type_str(&mut a, "hello");
    press_mod(&mut a, KeyCode::Char('a'), CTRL);
    assert_eq!(a.selection_range(), Some((0, 5)));
    press_mod(&mut a, KeyCode::Char('c'), CTRL);
    press_mod(&mut a, KeyCode::Char('x'), CTRL);
    assert_eq!(text(&a), "");
    press_mod(&mut a, KeyCode::Char('v'), CTRL);
    assert_eq!(text(&a), "hello");
    press_mod(&mut a, KeyCode::Char('z'), CTRL);
    assert_eq!(text(&a), "");
    press_mod(&mut a, KeyCode::Char('y'), CTRL);
    assert_eq!(text(&a), "hello");
}

#[test]
fn ctrl_l_cycles_keybinding_presets_for_the_session() {
    let mut a = app();
    assert_eq!(a.desk.preset, Preset::Standard);
    press_mod(&mut a, KeyCode::Char('l'), CTRL);
    assert_eq!(a.desk.preset, Preset::Vim);
    assert_eq!(a.desk.mode, Mode::Normal);
    press_mod(&mut a, KeyCode::Char('l'), CTRL);
    assert_eq!(a.desk.preset, Preset::Nano);
    assert_eq!(a.desk.mode, Mode::Insert);
    press_mod(&mut a, KeyCode::Char('l'), CTRL);
    assert_eq!(a.desk.preset, Preset::Emacs);
    press_mod(&mut a, KeyCode::Char('l'), CTRL);
    assert_eq!(a.desk.preset, Preset::Standard);
}

#[test]
fn ctrl_b_toggles_cursor_shape_globally() {
    let mut a = vim_app();
    press_mod(&mut a, KeyCode::Char('p'), CTRL);
    assert_eq!(a.desk.mode, Mode::Read);

    press_mod(&mut a, KeyCode::Char('b'), CTRL);
    assert_eq!(a.cursor_shape(), CursorShape::Line);
    assert_eq!(a.desk.mode, Mode::Read);
    assert_eq!(a.status.as_deref(), Some("Cursor: line"));

    press_mod(&mut a, KeyCode::Char('b'), CTRL);
    assert_eq!(a.cursor_shape(), CursorShape::Block);
}

#[test]
fn backspace_removes_grapheme_clusters_whole() {
    let mut a = app();
    type_str(&mut a, "a中👨‍👩‍👧‍👦");
    let full = text(&a);
    assert_eq!(full, "a中👨‍👩‍👧‍👦");

    press(&mut a, KeyCode::Backspace); // removes the whole ZWJ family
    assert_eq!(text(&a), "a中");
    press(&mut a, KeyCode::Backspace); // removes 中
    assert_eq!(text(&a), "a");
}

#[test]
fn horizontal_motion_steps_clusters_not_bytes() {
    let mut a = app();
    type_str(&mut a, "中x");
    press(&mut a, KeyCode::Home);
    assert_eq!(cur(&a), 0);
    press(&mut a, KeyCode::Right); // over 中 (3 bytes)
    assert_eq!(cur(&a), "中".len());
    press(&mut a, KeyCode::Left);
    assert_eq!(cur(&a), 0);
}

#[test]
fn vertical_motion_keeps_goal_column() {
    let mut a = app();
    type_str(&mut a, "long line");
    press(&mut a, KeyCode::Enter);
    type_str(&mut a, "ab");
    press(&mut a, KeyCode::Enter);
    type_str(&mut a, "another long line");
    // Cursor is at end of line 3; go to col via Home then Right x7.
    press(&mut a, KeyCode::Home);
    for _ in 0..7 {
        press(&mut a, KeyCode::Right);
    }
    let goal = usize::from(a.editor.cursor().goal_col) + 1; // cursor_line_col is 1-based
    press(&mut a, KeyCode::Up); // onto short "ab" -> clamps to end
    press(&mut a, KeyCode::Up); // back onto "long line" -> restores goal col
    assert_eq!(a.cursor_line_col().1, goal);
}

#[test]
fn enter_splits_into_two_lines() {
    let mut a = app();
    type_str(&mut a, "ab");
    press(&mut a, KeyCode::Enter);
    type_str(&mut a, "cd");
    assert_eq!(text(&a), "ab\ncd");
    assert_eq!(a.editor.line_count(), 2);
}

#[test]
fn asterisk_inserts_pair_and_skips_existing_closer() {
    let mut a = app();
    press(&mut a, KeyCode::Char('*'));
    assert_eq!(text(&a), "**");
    assert_eq!(cur(&a), 1);

    type_str(&mut a, "bold");
    assert_eq!(text(&a), "*bold*");
    assert_eq!(cur(&a), 5);

    press(&mut a, KeyCode::Char('*'));
    assert_eq!(text(&a), "*bold*");
    assert_eq!(cur(&a), 6);
}

#[test]
fn ctrl_h_deletes_backwards_in_every_preset() {
    for preset in [Preset::Standard, Preset::Vim, Preset::Nano, Preset::Emacs] {
        let mut a = app_with("ab");
        a.desk.preset = preset;
        a.desk.mode = Mode::Insert;
        press(&mut a, KeyCode::End);
        press_mod(&mut a, KeyCode::Char('h'), CTRL);
        assert_eq!(text(&a), "a", "{preset:?}");
    }
}

#[test]
fn quotes_and_underscores_do_not_pair_inside_words() {
    let mut a = app();
    type_str(&mut a, "don't snake_case a < b");
    assert_eq!(text(&a), "don't snake_case a < b");

    press(&mut a, KeyCode::Enter);
    press(&mut a, KeyCode::Char('_'));
    assert_eq!(text(&a), "don't snake_case a < b\n__");
}

#[test]
fn bracket_pair_skips_closer_and_redo_restores_inner_cursor() {
    let mut a = app();
    press(&mut a, KeyCode::Char('('));
    assert_eq!(text(&a), "()");
    assert_eq!(cur(&a), 1);

    press(&mut a, KeyCode::Char(')'));
    assert_eq!(text(&a), "()");
    assert_eq!(cur(&a), 2);

    a.undo();
    assert_eq!(text(&a), "");
    a.redo();
    assert_eq!(text(&a), "()");
    assert_eq!(cur(&a), 1);
}

#[test]
fn smart_pairs_wrap_selection() {
    let mut bold = app_with("word");
    bold.select_all();
    press(&mut bold, KeyCode::Char('*'));
    assert_eq!(text(&bold), "*word*");
    assert_eq!(cur(&bold), 6);

    let mut bracket = app_with("word");
    bracket.select_all();
    press(&mut bracket, KeyCode::Char('['));
    assert_eq!(text(&bracket), "[word]");
    assert_eq!(cur(&bracket), 6);

    let mut quote = app_with("word");
    quote.select_all();
    press(&mut quote, KeyCode::Char('"'));
    assert_eq!(text(&quote), "\"word\"");
    assert_eq!(cur(&quote), 6);
}

#[test]
fn bullet_list_enter_continues_then_exits_empty_item() {
    let mut a = app();
    type_str(&mut a, "- one");
    press(&mut a, KeyCode::Enter);
    assert_eq!(text(&a), "- one\n- ");
    assert_eq!(cur(&a), "- one\n- ".len());

    // Enter on the empty item exits the list (drops the marker). The default
    // (soft_break = "space") leaves no extra blank line.
    press(&mut a, KeyCode::Enter);
    assert_eq!(text(&a), "- one\n");
    assert_eq!(cur(&a), "- one\n".len());

    a.undo();
    assert_eq!(text(&a), "- one\n- ");
}

#[test]
fn task_list_enter_continues_with_empty_checkbox_then_exits() {
    let mut a = app();
    type_str(&mut a, "- [x] done");
    press(&mut a, KeyCode::Enter);
    // A checked task continues as a fresh *unchecked* checkbox.
    assert_eq!(text(&a), "- [x] done\n- [ ] ");
    assert_eq!(cur(&a), "- [x] done\n- [ ] ".len());

    // Enter on the empty checkbox exits the list.
    press(&mut a, KeyCode::Enter);
    assert_eq!(text(&a), "- [x] done\n");
}

#[test]
fn empty_item_hard_break_mode_leaves_a_blank_line() {
    let mut cfg = Config::default();
    cfg.editor.soft_break = "break".to_owned();
    let mut a = App::with_config(TextBuffer::empty(), &cfg, ThemeVariant::Dark, true);
    a.set_viewport(40, 10);
    type_str(&mut a, "- one");
    press(&mut a, KeyCode::Enter);
    press(&mut a, KeyCode::Enter); // exit on empty item
    assert_eq!(text(&a), "- one\n\n");
}

#[test]
fn bare_marker_enter_drops_the_stub() {
    // A lone "-" with no space (an unfinished item) is dropped on Enter.
    let mut a = app();
    type_str(&mut a, "-");
    press(&mut a, KeyCode::Enter);
    assert_eq!(text(&a), "");
}

#[test]
fn numbered_list_enter_increments_and_preserves_delimiter() {
    let mut dot = app();
    type_str(&mut dot, "1. one");
    press(&mut dot, KeyCode::Enter);
    assert_eq!(text(&dot), "1. one\n2. ");
    assert_eq!(cur(&dot), "1. one\n2. ".len());

    let mut paren = app();
    type_str(&mut paren, "9) nine");
    press(&mut paren, KeyCode::Enter);
    assert_eq!(text(&paren), "9) nine\n10) ");
    assert_eq!(cur(&paren), "9) nine\n10) ".len());
}

#[test]
fn list_continuation_preserves_indentation_and_undo_boundary() {
    let mut a = app();
    type_str(&mut a, "  + one");
    press(&mut a, KeyCode::Enter);
    type_str(&mut a, "two");
    assert_eq!(text(&a), "  + one\n  + two");

    a.undo();
    assert_eq!(text(&a), "  + one\n  + ");
    a.undo();
    assert_eq!(text(&a), "  + one");
}

#[test]
fn undo_redo_round_trips_a_typing_burst() {
    let mut a = app();
    type_str(&mut a, "hello");
    a.undo();
    assert_eq!(
        text(&a),
        "",
        "a typing burst undoes at once"
    );
    a.redo();
    assert_eq!(text(&a), "hello");
}

#[test]
fn newline_and_cursor_move_break_undo_steps() {
    let mut a = app();
    type_str(&mut a, "ab");
    press(&mut a, KeyCode::Enter);
    type_str(&mut a, "cd");
    a.undo(); // "cd"
    assert_eq!(text(&a), "ab\n");
    a.undo(); // "\n"
    assert_eq!(text(&a), "ab");
    a.undo(); // "ab"
    assert_eq!(text(&a), "");
}

#[test]
fn shift_selection_then_backspace_deletes_the_range() {
    let mut a = app();
    type_str(&mut a, "abcdef");
    press(&mut a, KeyCode::Home);
    for _ in 0..3 {
        press_mod(&mut a, KeyCode::Right, SHIFT);
    }
    assert_eq!(a.selection_range(), Some((0, 3)));
    press(&mut a, KeyCode::Backspace);
    assert_eq!(text(&a), "def");
    assert_eq!(a.selection_range(), None);
}

#[test]
fn shift_arrows_extend_selection_across_lines() {
    let mut a = app();
    type_str(&mut a, "ab");
    press(&mut a, KeyCode::Enter);
    type_str(&mut a, "cd"); // "ab\ncd"
    press(&mut a, KeyCode::Up);
    press(&mut a, KeyCode::Home);
    assert_eq!(cur(&a), 0);

    // Extend across the newline with shift+Right.
    for _ in 0..4 {
        press_mod(&mut a, KeyCode::Right, SHIFT);
    }
    assert_eq!(cur(&a), 4);
    assert_eq!(
        a.selection_range(),
        Some((0, 4)),
        "selection spans the newline"
    );

    // Vertical: shift+Down from the top extends down a line.
    press(&mut a, KeyCode::Home);
    press(&mut a, KeyCode::Up);
    press(&mut a, KeyCode::Home);
    press_mod(&mut a, KeyCode::Down, SHIFT);
    assert_eq!(
        a.selection_range(),
        Some((0, 3)),
        "shift+Down selects down a line"
    );
}

#[test]
fn cross_block_selection_full_flow() {
    let mut a = app();
    type_str(&mut a, "alpha");
    press(&mut a, KeyCode::Enter);
    press(&mut a, KeyCode::Enter);
    type_str(&mut a, "bravo"); // "alpha\n\nbravo" — two paragraphs

    // Navigate to the very start.
    press(&mut a, KeyCode::Up);
    press(&mut a, KeyCode::Up);
    press(&mut a, KeyCode::Home);
    assert_eq!(cur(&a), 0);

    // Shift+Down twice into "bravo", then Shift+Right to actually cover one
    // of its characters.
    press_mod(&mut a, KeyCode::Down, SHIFT);
    press_mod(&mut a, KeyCode::Down, SHIFT);
    press_mod(&mut a, KeyCode::Right, SHIFT);
    let sel = a.selection_range();
    assert!(
        sel.is_some_and(|(s, e)| s == 0 && e >= 8),
        "selection should span into the second block, got {sel:?}"
    );

    // The assembled view must highlight more than one row.
    a.set_viewport(20, 10);
    let rows = all_rows(&mut a);
    let highlighted = rows
        .lines
        .iter()
        .filter(|l| {
            l.spans
                .iter()
                .any(|s| s.style.bg == Some(a.theme.selection))
        })
        .count();
    assert!(
        highlighted >= 2,
        "cross-block selection should highlight 2+ rows, got {highlighted}"
    );
}

#[test]
fn config_selects_preset_settings_and_theme() {
    let mut cfg = Config::default();
    cfg.editor.keybindings = " Nano ".to_owned();
    cfg.editor.line_numbers = "relative".to_owned();
    cfg.editor.heading_glyphs = false;
    cfg.editor.tab_width = 2;
    cfg.theme.markdown = vec![("heading1".to_owned(), "#ff0000".to_owned())];
    let a = App::with_config(TextBuffer::empty(), &cfg, ThemeVariant::Dark, true);
    assert_eq!(a.desk.preset, Preset::Nano);
    assert_eq!(a.desk.line_numbers, LineNumbers::Relative);
    assert_eq!(a.desk.mode, Mode::Insert, "nano rests in insert mode");
    assert_eq!(a.editor.tab_width(), 2);
    assert!(!a.theme.heading_glyphs);
    assert_eq!(a.theme.heading(1).fg, parse_hex("#ff0000", true));
}

#[test]
fn menu_opens_from_ctrl_g_and_vim_question_mark() {
    let mut a = vim_app();
    press_mod(&mut a, KeyCode::Char('g'), CTRL);
    assert!(a.menu_open());
    // Enter accepts and closes.
    press(&mut a, KeyCode::Enter);
    assert!(!a.menu_open());
    // Vim normal `?` reopens; Esc closes.
    press(&mut a, KeyCode::Char('?'));
    assert!(a.menu_open());
    press(&mut a, KeyCode::Esc);
    assert!(!a.menu_open());
}

#[test]
fn menu_switches_theme_appearance_and_preset_live_with_esc_revert() {
    let mut a = app_with("# Title\n\nbody\n");
    let orig_name = a.theme().name;
    let orig_variant = a.theme().variant;

    press_mod(&mut a, KeyCode::Char('g'), CTRL);
    // Row 0 (Keybindings): Right cycles the preset.
    press(&mut a, KeyCode::Right);
    assert_ne!(
        a.preset(),
        Preset::Standard,
        "keybindings row cycles preset"
    );

    // Row 1 (Theme): Down to it, Right to the next family.
    press(&mut a, KeyCode::Down);
    press(&mut a, KeyCode::Right);
    assert_ne!(a.theme().name, orig_name, "theme applies live");

    // Row 2 (Appearance): Down, Right toggles dark/light.
    press(&mut a, KeyCode::Down);
    press(&mut a, KeyCode::Right);
    assert_ne!(a.theme().variant, orig_variant, "appearance flips live");
    assert!(matches!(
        a.theme().variant,
        ThemeVariant::Dark | ThemeVariant::Light
    ));

    // Esc reverts everything to the on-open snapshot.
    press(&mut a, KeyCode::Esc);
    assert!(!a.menu_open());
    assert_eq!(a.theme().name, orig_name, "Esc reverts the theme");
    assert_eq!(a.theme().variant, orig_variant, "Esc reverts appearance");
    assert_eq!(a.preset(), Preset::Standard, "Esc reverts the preset");
}

#[test]
fn cancelling_settings_preserves_selection() {
    let mut a = app_with("hello world");
    press(&mut a, KeyCode::Home);
    for _ in 0..5 {
        press_mod(&mut a, KeyCode::Right, SHIFT);
    }
    assert_eq!(a.selection_range(), Some((0, 5)));

    press_mod(&mut a, KeyCode::Char('g'), CTRL);
    assert!(a.menu_open());
    press(&mut a, KeyCode::Esc);
    assert!(!a.menu_open());
    assert_eq!(
        a.selection_range(),
        Some((0, 5)),
        "Esc-cancel keeps the selection"
    );
}

#[test]
fn menu_edits_line_numbers_live_with_esc_revert() {
    let mut a = app_with("# Title\n\nbody\n");
    assert_eq!(a.line_numbers(), LineNumbers::Off);

    press_mod(&mut a, KeyCode::Char('g'), CTRL);
    // Down past Keybindings/Theme/Appearance to the Line numbers row.
    for _ in 0..3 {
        press(&mut a, KeyCode::Down);
    }
    press(&mut a, KeyCode::Right); // off -> absolute
    assert_eq!(a.line_numbers(), LineNumbers::Absolute, "applies live");
    press(&mut a, KeyCode::Right); // absolute -> relative
    assert_eq!(a.line_numbers(), LineNumbers::Relative);
    press(&mut a, KeyCode::Right); // relative -> off (wraps)
    assert_eq!(a.line_numbers(), LineNumbers::Off);
    press(&mut a, KeyCode::Left); // off -> relative (wraps back)
    assert_eq!(a.line_numbers(), LineNumbers::Relative);

    // Esc reverts to the on-open value.
    press(&mut a, KeyCode::Esc);
    assert!(!a.menu_open());
    assert_eq!(
        a.line_numbers(),
        LineNumbers::Off,
        "Esc reverts line numbers"
    );

    // Enter keeps the change.
    press_mod(&mut a, KeyCode::Char('g'), CTRL);
    for _ in 0..3 {
        press(&mut a, KeyCode::Down);
    }
    press(&mut a, KeyCode::Right); // off -> absolute
    press(&mut a, KeyCode::Enter);
    assert!(!a.menu_open());
    assert_eq!(a.line_numbers(), LineNumbers::Absolute, "Enter keeps it");
}

#[test]
fn read_mode_q_returns_to_focus() {
    let mut a = vim_app();
    press_mod(&mut a, KeyCode::Char('p'), CTRL);
    assert_eq!(a.desk.mode, Mode::Read);
    press(&mut a, KeyCode::Char('q'));
    assert_eq!(a.desk.mode, Mode::Normal);
}

#[test]
fn views_keep_independent_scroll_positions_and_restore_the_cursor() {
    let mut a = app_with(&"line\n".repeat(80));
    a.desk.scroll_y = 7;
    put(&mut a, 10);

    run(&mut a, Action::ToggleRaw);
    assert_eq!(a.desk.scroll_y, 0);
    a.desk.scroll_y = 3;
    run(&mut a, Action::ToggleRaw);
    assert_eq!(a.desk.scroll_y, 7);
    run(&mut a, Action::ToggleRaw);
    assert_eq!(a.desk.scroll_y, 3);

    run(&mut a, Action::TogglePreview);
    assert_eq!(a.desk.scroll_y, 0);
    a.desk.scroll_y = 5;
    put(&mut a, 0);
    run(&mut a, Action::TogglePreview);
    assert_eq!(a.desk.scroll_y, 3);
    assert_eq!(cur(&a), 10);
    run(&mut a, Action::TogglePreview);
    assert_eq!(a.desk.scroll_y, 5);
}

#[test]
fn nano_preset_inserts_on_plain_keys() {
    let mut cfg = Config::default();
    cfg.editor.keybindings = "nano".to_owned();
    let mut a = App::with_config(TextBuffer::empty(), &cfg, ThemeVariant::Dark, true);
    a.set_viewport(20, 10);
    type_str(&mut a, "hi");
    assert_eq!(text(&a), "hi");
}

#[test]
fn vim_insert_escape_and_normal_motion() {
    let mut a = vim_app();
    assert_eq!(a.desk.mode, Mode::Normal);
    press(&mut a, KeyCode::Char('h')); // a motion, not text
    assert_eq!(
        text(&a),
        "",
        "normal-mode keys don't insert"
    );

    press(&mut a, KeyCode::Char('i'));
    assert_eq!(a.desk.mode, Mode::Insert);
    type_str(&mut a, "hello");
    press(&mut a, KeyCode::Esc);
    assert_eq!(a.desk.mode, Mode::Normal);
    assert_eq!(text(&a), "hello");
}

#[test]
fn vim_visual_select_and_delete() {
    let mut a = vim_app();
    press(&mut a, KeyCode::Char('i'));
    type_str(&mut a, "hello");
    press(&mut a, KeyCode::Esc);
    press(&mut a, KeyCode::Char('0')); // line start
    press(&mut a, KeyCode::Char('v')); // visual
    assert_eq!(a.desk.mode, Mode::Visual);
    press(&mut a, KeyCode::Char('l'));
    press(&mut a, KeyCode::Char('l'));
    assert_eq!(a.selection_range(), Some((0, 2)));
    press(&mut a, KeyCode::Char('d')); // delete selection
    assert_eq!(text(&a), "llo");
    assert_eq!(a.desk.mode, Mode::Normal);
}

#[test]
fn vim_dd_deletes_the_line() {
    let mut a = vim_app();
    press(&mut a, KeyCode::Char('i'));
    type_str(&mut a, "ab");
    press(&mut a, KeyCode::Enter);
    type_str(&mut a, "cd");
    press(&mut a, KeyCode::Esc);
    press(&mut a, KeyCode::Char('d'));
    press(&mut a, KeyCode::Char('d'));
    assert_eq!(text(&a), "ab\n");
}

#[test]
fn cut_then_paste_round_trips_via_register() {
    let mut a = app();
    a.clipboard = Clipboard::internal_only();
    type_str(&mut a, "abcdef");
    press(&mut a, KeyCode::Home);
    for _ in 0..3 {
        press_mod(&mut a, KeyCode::Right, SHIFT);
    }
    let _ = a.cut();
    assert_eq!(text(&a), "def");
    a.paste(None); // cursor is at 0 after cut
    assert_eq!(text(&a), "abcdef");
}

#[test]
fn table_mode_navigates_cells_and_inserts_deletes_rows() {
    let src = "| A | B |\n| - | - |\n| 1 | 2 |\n| 3 | 4 |\n";
    let mut a = app_with(src);
    put(&mut a, src.find('1').unwrap());

    press_mod(&mut a, KeyCode::Char('t'), CTRL);
    assert!(a.desk.table_mode);
    press(&mut a, KeyCode::Tab);
    assert_eq!(cur(&a), src.find('2').unwrap());

    press_mod(&mut a, KeyCode::Char('n'), CTRL);
    assert!(text(&a).contains("|  |  |\n| 3 | 4 |"));
    press_mod(&mut a, KeyCode::Char('d'), CTRL);
    assert_eq!(text(&a), src);
}

#[test]
fn table_row_move_at_eof_without_trailing_newline() {
    // A table at EOF with no trailing newline: moving the last data row up must
    // keep the rows on separate physical lines and not glue them together or
    // introduce a spurious trailing newline.
    let src = "| A | B |\n| - | - |\n| 1 | 2 |\n| 3 | 4 |";
    let mut a = app_with(src);
    put(&mut a, src.rfind('3').unwrap());
    press_mod(&mut a, KeyCode::Char('t'), CTRL);
    press_mod(&mut a, KeyCode::Up, ALT);
    assert_eq!(
        text(&a),
        "| A | B |\n| - | - |\n| 3 | 4 |\n| 1 | 2 |"
    );
}

#[test]
fn table_mode_protects_header_and_moves_data_rows() {
    let src = "| A | B |\n| - | - |\n| 1 | 2 |\n| 3 | 4 |\n";
    let mut a = app_with(src);
    put(&mut a, src.find('A').unwrap());
    press_mod(&mut a, KeyCode::Char('t'), CTRL);
    press_mod(&mut a, KeyCode::Char('d'), CTRL);
    assert_eq!(text(&a), src);

    let at = text(&a).find('3').unwrap();
    put(&mut a, at);
    press_mod(&mut a, KeyCode::Up, ALT);
    let out = text(&a);
    assert!(out.contains("| 3 | 4 |\n| 1 | 2 |"));
}

#[test]
fn table_formatter_aligns_cells_and_preserves_escaped_pipes() {
    let source = "  | Name | Note |\r\n  |:--|---:|\r\n  | Ada| a \\| b|\r\n";
    let mut a = app_with(source);
    put(&mut a, source.find("Ada").unwrap());

    run(&mut a, Action::FormatTable);

    assert_eq!(
        text(&a),
        "  | Name | Note   |\r\n  | :--- | -----: |\r\n  | Ada  | a \\| b |\r\n"
    );
    run(&mut a, Action::Undo);
    assert_eq!(text(&a), source);
}

#[test]
fn table_format_keeps_cursor_on_a_char_boundary() {
    let mut a = app_with("|中|b|\n|-|-|\n");
    put(&mut a, "|中".len());
    run(&mut a, Action::FormatTable);
    assert!(text(&a).is_char_boundary(cur(&a)));
}

#[test]
fn heading_cycle_keeps_cursor_on_a_char_boundary() {
    let mut a = app_with("# 中b\n");
    put(&mut a, "# 中".len());
    run(&mut a, Action::CycleHeading);
    assert_eq!(text(&a), "## 中b\n");
    assert!(text(&a).is_char_boundary(cur(&a)));
}

#[test]
fn save_as_can_be_cancelled() {
    let mut a = app();
    type_str(&mut a, "draft");
    press_mod(&mut a, KeyCode::Char('s'), CTRL);
    assert!(a.prompt_view().is_some());
    press(&mut a, KeyCode::Esc);
    assert!(a.prompt_view().is_none(), "Esc cancels the prompt");
    assert_eq!(text(&a), "draft", "buffer is untouched");
}

#[test]
fn file_actions_protect_unsaved_changes() {
    let mut a = app();
    type_str(&mut a, "draft");

    for action in [Action::NewFile, Action::OpenFile] {
        assert!(!a.action_enabled(action));
        run(&mut a, action);
        assert_eq!(text(&a), "draft");
    }
}

#[test]
fn raw_view_shows_source_with_markers() {
    let mut a = app_with("# Title\n\nA **bold** word.\n");
    press_mod(&mut a, KeyCode::Char('r'), CTRL);
    assert!(a.raw_view(), "^R toggles raw view");
    a.set_viewport(40, 10);
    let rows = all_rows(&mut a);
    let text: String = rows
        .lines
        .iter()
        .map(|l| {
            l.spans
                .iter()
                .map(|s| s.text.as_str())
                .collect::<String>()
        })
        .collect::<Vec<_>>()
        .join("\n");
    // Every block is shown raw — markers are kept, not stripped.
    assert!(text.contains("# Title"), "raw heading kept: {text:?}");
    assert!(text.contains("**bold**"), "raw markers kept: {text:?}");

    // Toggling off returns to the hybrid focus view.
    press_mod(&mut a, KeyCode::Char('r'), CTRL);
    assert!(!a.raw_view());
}

#[test]
fn vim_normal_ctrl_r_is_redo_not_raw_view() {
    let mut a = vim_app();
    press(&mut a, KeyCode::Char('i'));
    type_str(&mut a, "x");
    press(&mut a, KeyCode::Esc); // normal mode
    a.undo();
    assert_eq!(text(&a), "");
    // In Vim normal mode, ^R redoes (it does not toggle the raw view).
    press_mod(&mut a, KeyCode::Char('r'), CTRL);
    assert!(!a.raw_view());
    assert_eq!(text(&a), "x");
}

#[test]
fn inserting_in_a_numbered_list_renumbers_the_source() {
    let mut a = app();
    type_str(&mut a, "1. a");
    press(&mut a, KeyCode::Enter);
    type_str(&mut a, "b");
    press(&mut a, KeyCode::Enter);
    type_str(&mut a, "c");
    assert_eq!(text(&a), "1. a\n2. b\n3. c");

    // Insert a new item after "1. a"; the source stays sequential (1,2,3,4).
    put(&mut a, "1. a".len());
    press(&mut a, KeyCode::Enter);
    assert_eq!(text(&a), "1. a\n2. \n3. b\n4. c");
    assert_eq!(cur(&a), "1. a\n2. ".len());
}

#[test]
fn deleting_a_middle_numbered_item_renumbers() {
    let mut a = app_with("1. a\n2. b\n3. c\n");
    let at = line_at(&a, 1);
    put(&mut a, at); // on "2. b"
    let _ = a.delete_line();
    assert_eq!(text(&a), "1. a\n2. c\n");
}

#[test]
fn exiting_empty_ordered_item_renumbers_the_rest() {
    let mut a = app_with("1. a\n2. \n3. c\n");
    put(&mut a, "1. a\n2. ".len()); // end of the empty "2. "
    press(&mut a, KeyCode::Enter); // exit the list
    assert_eq!(text(&a), "1. a\n\n2. c\n");
}

#[test]
fn global_shortcuts_cancel_a_pending_chord() {
    let mut a = vim_app();
    press(&mut a, KeyCode::Char('i'));
    type_str(&mut a, "ab\ncd");
    press(&mut a, KeyCode::Esc);
    press(&mut a, KeyCode::Char('d')); // start a `dd` chord...
    press_mod(&mut a, KeyCode::Char('b'), CTRL); // ...interrupted
    press(&mut a, KeyCode::Char('d')); // a fresh leader, not the chord's tail
    assert_eq!(
        text(&a),
        "ab\ncd",
        "an interrupted chord must not fire"
    );
    press(&mut a, KeyCode::Char('d')); // complete `dd` normally
    assert_eq!(text(&a), "ab\n");
}

#[test]
fn emacs_mark_extends_motions_until_cleared() {
    let mut a = app_with("hello");
    a.desk.preset = Preset::Emacs;
    press_mod(&mut a, KeyCode::Char(' '), CTRL); // set mark
    press_mod(&mut a, KeyCode::Char('f'), CTRL);
    press_mod(&mut a, KeyCode::Char('f'), CTRL);
    assert_eq!(
        a.selection_range(),
        Some((0, 2)),
        "motions extend the region"
    );
    press(&mut a, KeyCode::Esc);
    assert_eq!(a.selection_range(), None, "Esc deactivates the mark");
}

#[test]
fn typing_a_closer_replaces_the_selection() {
    let mut a = app_with("abc)");
    press(&mut a, KeyCode::Home);
    for _ in 0..3 {
        press_mod(&mut a, KeyCode::Right, SHIFT);
    }
    assert_eq!(a.selection_range(), Some((0, 3)));
    press(&mut a, KeyCode::Char(')'));
    assert_eq!(
        text(&a),
        "))",
        "a closing char replaces the selection instead of type-over"
    );
}

#[test]
fn quit_with_unsaved_changes_asks_first() {
    let mut a = app_with("draft");
    press_mod(&mut a, KeyCode::Char('q'), CTRL);
    assert!(a.desk.should_quit, "an unmodified buffer quits immediately");

    let mut a = app_with("draft");
    type_str(&mut a, "x");
    press_mod(&mut a, KeyCode::Char('q'), CTRL);
    assert!(!a.desk.should_quit, "a modified buffer must not quit silently");
    assert!(a.prompt.is_some());
    press(&mut a, KeyCode::Char('n'));
    assert!(!a.desk.should_quit);
    assert!(a.prompt.is_none());
    press_mod(&mut a, KeyCode::Char('q'), CTRL);
    press(&mut a, KeyCode::Char('y'));
    assert!(a.desk.should_quit);
}

#[test]
fn undo_back_to_the_loaded_state_clears_modified() {
    let mut a = app_with("hello");
    type_str(&mut a, "x");
    assert!(a.editor.buffer().modified());
    press_mod(&mut a, KeyCode::Char('z'), CTRL);
    assert!(
        !a.editor.buffer().modified(),
        "undoing the only edit returns to the saved state"
    );
    press_mod(&mut a, KeyCode::Char('y'), CTRL);
    assert!(a.editor.buffer().modified(), "redo makes it modified again");
}

#[test]
fn noop_delete_does_not_destroy_redo() {
    let mut a = vim_app();
    press(&mut a, KeyCode::Char('i'));
    type_str(&mut a, "x");
    press(&mut a, KeyCode::Esc);
    press(&mut a, KeyCode::Char('u')); // undo -> empty buffer
    assert_eq!(text(&a), "");
    press(&mut a, KeyCode::Char('d'));
    press(&mut a, KeyCode::Char('d')); // dd on the empty buffer: a no-op
    press_mod(&mut a, KeyCode::Char('r'), CTRL); // redo
    assert_eq!(
        text(&a),
        "x",
        "a no-op edit must not clear the redo stack"
    );
}

#[test]
fn enter_in_a_crlf_file_inserts_crlf() {
    let mut a = app_with("ab\r\ncd\r\n");
    press(&mut a, KeyCode::End);
    press(&mut a, KeyCode::Enter);
    assert_eq!(text(&a), "ab\r\n\r\ncd\r\n");
}

#[test]
fn enter_inside_a_code_fence_never_continues_lists() {
    let mut a = app_with("```\n- item\n```\n");
    put(&mut a, "```\n- item".len()); // end of the bullet-looking line
    press(&mut a, KeyCode::Enter);
    assert_eq!(
        text(&a),
        "```\n- item\n\n```\n",
        "list continuation must not fire inside a fence"
    );
}

#[test]
fn indented_table_cells_have_no_phantom_indent_cell() {
    let mut a = app_with("  | a | b |\n  | - | - |\n  | 1 | 2 |\n");
    put(&mut a, 4); // on "a" in the header row
    press_mod(&mut a, KeyCode::Char('t'), CTRL);
    assert!(a.table_mode());
    press(&mut a, KeyCode::Tab);
    assert_eq!(cur(&a), 8, "Tab lands on the b cell, not the indent");
    press(&mut a, KeyCode::BackTab);
    assert_eq!(cur(&a), 4, "BackTab returns to the a cell");
}

#[test]
fn table_row_insert_redoes_to_the_same_cursor() {
    let mut a = app_with("| a | b |\n| - | - |\n| 1 | 2 |");
    let at = line_at(&a, 2) + 2;
    put(&mut a, at);
    press_mod(&mut a, KeyCode::Char('t'), CTRL);
    press_mod(&mut a, KeyCode::Char('n'), CTRL); // insert row
    let after = (text(&a), cur(&a));
    press_mod(&mut a, KeyCode::Char('z'), CTRL);
    press_mod(&mut a, KeyCode::Char('y'), CTRL);
    assert_eq!(
        (text(&a), cur(&a)),
        after,
        "redo restores both the text and the adjusted cursor"
    );
}

#[test]
fn find_jumps_counts_and_wraps() {
    let mut a = app_with("alpha beta alpha gamma alpha");
    press_mod(&mut a, KeyCode::Char('f'), CTRL);
    assert!(a.prompt.is_some(), "^F opens the find prompt");
    type_str(&mut a, "alpha");
    assert_eq!(a.selection_range(), Some((0, 5)), "incremental first match");
    press(&mut a, KeyCode::Enter);
    assert_eq!(a.selection_range(), Some((11, 16)), "Enter steps forward");
    press(&mut a, KeyCode::Up);
    assert_eq!(a.selection_range(), Some((0, 5)), "Up steps back");
    press(&mut a, KeyCode::Enter);
    press(&mut a, KeyCode::Enter);
    assert_eq!(a.selection_range(), Some((23, 28)));
    press(&mut a, KeyCode::Enter);
    assert_eq!(a.selection_range(), Some((0, 5)), "stepping wraps around");
    press(&mut a, KeyCode::Esc);
    assert!(a.prompt.is_none());
    assert_eq!(a.last_search, "alpha");
}

#[test]
fn find_uses_smart_case() {
    let mut a = app_with("alpha Alpha");
    press_mod(&mut a, KeyCode::Char('f'), CTRL);
    type_str(&mut a, "Alpha"); // has uppercase: exact match only
    assert_eq!(a.selection_range(), Some((6, 11)));
    assert_eq!(starts(&mut a, "alpha"), [0, 6], "lowercase matches both");
    assert_eq!(starts(&mut a, "Alpha"), [6]);
}

#[test]
fn regex_search_does_not_infer_case_from_the_pattern() {
    let mut a = app_with("cat CAT");
    press_mod(&mut a, KeyCode::Char('f'), CTRL);
    press_mod(&mut a, KeyCode::Char('r'), ALT);
    let starts: Vec<_> = a
        .search_matches("C.T")
        .iter()
        .map(|found| found.start)
        .collect();
    assert_eq!(starts, [0, 4]);
}

#[test]
fn find_reuses_cached_matches_until_the_document_changes() {
    let mut a = app_with("alpha beta alpha");
    assert_eq!(starts(&mut a, "alpha"), [0, 11]);
    assert_eq!(starts(&mut a, "alpha"), [0, 11]);
    assert_eq!(a.editor.search_scans(), 1);

    type_str(&mut a, "alpha ");
    assert_eq!(starts(&mut a, "alpha"), [0, 6, 17]);
    assert_eq!(a.editor.search_scans(), 2);
}

#[test]
fn find_handles_unicode_case_and_restores_on_cancel() {
    let mut a = app_with("start Äpfel äpfel");
    put(&mut a, 3);
    press_mod(&mut a, KeyCode::Char('f'), CTRL);
    type_str(&mut a, "äpfel");
    let starts: Vec<_> = a
        .search_matches("äpfel")
        .iter()
        .map(|found| found.start)
        .collect();
    assert_eq!(starts, [6, 13]);
    press(&mut a, KeyCode::Esc);
    assert_eq!(cur(&a), 3);
    assert_eq!(a.selection_range(), None);
}

#[test]
fn find_options_limit_matches() {
    let mut a = app_with("cat scatter Cat");
    press_mod(&mut a, KeyCode::Char('f'), CTRL);
    press_mod(&mut a, KeyCode::Char('w'), ALT);
    type_str(&mut a, "cat");
    let starts: Vec<_> = a
        .search_matches("cat")
        .iter()
        .map(|found| found.start)
        .collect();
    assert_eq!(starts, [0, 12]);

    press_mod(&mut a, KeyCode::Char('c'), ALT);
    let starts: Vec<_> = a
        .search_matches("cat")
        .iter()
        .map(|found| found.start)
        .collect();
    assert_eq!(starts, [0]);
}

#[test]
fn regex_replace_uses_each_match_range() {
    let mut a = app_with("a1 a22");
    press_mod(&mut a, KeyCode::Char('f'), CTRL);
    press_mod(&mut a, KeyCode::Char('r'), ALT);
    type_str(&mut a, r"a\d+");
    press(&mut a, KeyCode::Tab);
    type_str(&mut a, "X");
    press_mod(&mut a, KeyCode::Char('a'), CTRL);
    assert_eq!(text(&a), "X X");
}

#[test]
fn find_can_stay_inside_the_original_selection() {
    let mut a = app_with("cat cat");
    a.editor.set_anchor(Some(0));
    put(&mut a, 3);
    press_mod(&mut a, KeyCode::Char('f'), CTRL);
    press_mod(&mut a, KeyCode::Char('s'), ALT);
    let matches = a.search_matches("cat");
    assert_eq!(matches.len(), 1);
    assert_eq!(matches[0].start, 0);
    assert_eq!(matches[0].end, 3);
}

#[test]
fn replace_replaces_current_and_advances() {
    let mut a = app_with("foo bar foo");
    press_mod(&mut a, KeyCode::Char('f'), CTRL);
    type_str(&mut a, "foo");
    press(&mut a, KeyCode::Tab); // switch to replace
    type_str(&mut a, "X");
    press(&mut a, KeyCode::Enter); // replace first match
    assert_eq!(text(&a), "X bar foo");
    assert_eq!(a.selection_range(), Some((6, 9)), "next match is selected");
    press(&mut a, KeyCode::Enter);
    assert_eq!(text(&a), "X bar X");
}

#[test]
fn replace_all_is_one_undo_step() {
    let mut a = app_with("foo bar foo");
    press_mod(&mut a, KeyCode::Char('f'), CTRL);
    type_str(&mut a, "foo");
    press(&mut a, KeyCode::Tab);
    type_str(&mut a, "longer");
    press_mod(&mut a, KeyCode::Char('a'), CTRL);
    assert_eq!(text(&a), "longer bar longer");
    assert!(a.prompt.is_none(), "replace-all closes the prompt");
    assert_eq!(a.status.as_deref(), Some("Replaced 2 occurrences"));
    press_mod(&mut a, KeyCode::Char('z'), CTRL);
    assert_eq!(
        text(&a),
        "foo bar foo",
        "replace-all undoes as a single step"
    );
}

#[test]
fn vim_slash_and_n_navigate_matches() {
    let mut a = vim_app();
    press(&mut a, KeyCode::Char('i'));
    type_str(&mut a, "one two one");
    press(&mut a, KeyCode::Esc);
    press(&mut a, KeyCode::Char('g'));
    press(&mut a, KeyCode::Char('g')); // doc start
    press(&mut a, KeyCode::Char('/'));
    assert!(a.prompt.is_some(), "/ opens find in vim normal mode");
    type_str(&mut a, "one");
    press(&mut a, KeyCode::Enter);
    press(&mut a, KeyCode::Esc);
    assert_eq!(cur(&a), 0, "closing find restores its starting point");
    press(&mut a, KeyCode::Char('n'));
    assert_eq!(
        cur(&a), 8,
        "n moves to the next match without selecting"
    );
    assert_eq!(a.selection_range(), None);
    press(&mut a, KeyCode::Char('n'));
    assert_eq!(cur(&a), 0);
    press(&mut a, KeyCode::Char('N'));
    assert_eq!(cur(&a), 8);
}

#[test]
fn click_positions_the_cursor() {
    let mut a = app_with("alpha\n\nbeta line\n");
    a.set_viewport(40, 10);
    click(&mut a, mouse(MouseKind::Press, 3, 0));
    assert_eq!(cur(&a), 3, "click in the active raw row is exact");

    // Row 2 renders the preview of the "beta line" paragraph; a click lands
    // at the same column inside its source line.
    click(&mut a, mouse(MouseKind::Press, 2, 2));
    assert_eq!(cur(&a), 9);
}

#[test]
fn drag_selects_from_the_press_point() {
    let mut a = app_with("hello world");
    a.set_viewport(40, 10);
    click(&mut a, mouse(MouseKind::Press, 0, 0));
    click(&mut a, mouse(MouseKind::Drag, 5, 0));
    assert_eq!(a.selection_range(), Some((0, 5)));
}

#[test]
fn wheel_scroll_detaches_and_a_keypress_reattaches() {
    let src = "line\n".repeat(50);
    let mut a = app_with(&src);
    a.set_viewport(40, 10);
    scroll(&mut a);
    assert_eq!(a.desk.scroll_y, 0);
    click(&mut a, mouse(MouseKind::ScrollDown, 0, 0));
    assert_eq!(a.desk.scroll_y, 3);
    assert!(!a.follows_cursor(), "wheel scrolling detaches the viewport");
    press(&mut a, KeyCode::Right);
    assert!(a.follows_cursor(), "a keypress snaps back to the cursor");
}

#[test]
fn cmd_super_modifier_acts_as_ctrl() {
    let mut a = app_with("hello");
    type_str(&mut a, "x");
    press_mod(&mut a, KeyCode::Char('z'), SUPER); // Cmd+Z
    assert_eq!(text(&a), "hello", "Cmd+Z undoes");
}

#[test]
fn click_moves_between_list_items() {
    let mut a = app_with("- one\n- two\n- three\n");
    a.set_viewport(40, 10);
    // Item one is the raw hole; two and three render as preview rows, which
    // carry no per-row line number — the click must still resolve them.
    click(&mut a, mouse(MouseKind::Press, 2, 2));
    assert_eq!(
        line_of(&a),
        2,
        "clicking the third item moves the cursor to its line"
    );
    click(&mut a, mouse(MouseKind::Press, 2, 1));
    assert_eq!(
        line_of(&a),
        1,
        "clicking the second item moves the cursor to its line"
    );
}

#[test]
fn click_into_a_preview_table_lands_inside_the_table() {
    let mut a = app_with("para\n\n| a | b |\n| - | - |\n| 1 | 2 |\n");
    a.set_viewport(40, 10);
    // Rows: 0 = "para" (raw hole), 1 = blank gap, 2.. = the rendered grid.
    click(&mut a, mouse(MouseKind::Press, 2, 4));
    let line = line_of(&a);
    assert!(
        (2..=4).contains(&line),
        "click lands inside the table source, got line {line}"
    );
}

#[test]
fn cursor_jump_to_offscreen_line_scrolls_and_assembles() {
    let src = many_blocks(120);
    let mut a = app_with(&src);
    a.set_viewport(40, 10);
    let _ = visible(&mut a);

    put(&mut a, src.find("# Heading 96").unwrap());
    scroll(&mut a);
    let view = page(&mut a);
    let (_, row) = a.cursor_screen(&view);
    assert!(
        row >= a.desk.scroll_y && row < a.desk.scroll_y + 10,
        "cursor row {row} visible from scroll {}",
        a.desk.scroll_y
    );
    let rows = visible(&mut a);
    let text: String = rows
        .lines
        .iter()
        .map(|l| {
            l.spans
                .iter()
                .map(|s| s.text.as_str())
                .collect::<String>()
        })
        .collect::<Vec<_>>()
        .join("\n");
    assert!(
        text.contains("# Heading 96"),
        "the jumped-to block is in the assembled window:\n{text}"
    );
}

#[test]
fn gutter_numbers_stay_aligned_after_wheel_scroll() {
    // One unwrapped paragraph: every row is raw, labels are exact layout lines.
    let mut a = app_with(&ascii(200, 10));
    a.set_viewport(40, 10);
    for _ in 0..20 {
        click(&mut a, mouse(MouseKind::ScrollDown, 0, 0));
    }
    assert_eq!(a.desk.scroll_y, 60, "20 wheel steps of 3 rows");
    let rows = visible(&mut a);
    let expected: Vec<Option<usize>> = (61..71).map(Some).collect();
    assert_eq!(
        rows.numbers, expected,
        "visible gutter labels match the scrolled-to source lines"
    );
}

#[test]
fn clicking_a_rendered_checkbox_toggles_its_source() {
    let mut a = app_with("intro\n\n- [ ] task\n");
    put(&mut a, 0);
    a.set_viewport(40, 10);
    let rows = visible(&mut a);
    let (y, x) = shown(&rows)
        .iter()
        .enumerate()
        .find_map(|(y, text)| text.find('□').map(|x| (y, x)))
        .expect("rendered task checkbox");

    click(&mut a, mouse(MouseKind::Press, x as u16, y as u16));

    assert_eq!(text(&a), "intro\n\n- [x] task\n");
}

#[test]
fn cursor_in_loose_list_gap_opens_only_the_blank() {
    let mut a = app_with("- a\n\n- c\n");
    let at = line_at(&a, 1);
    put(&mut a, at);
    a.set_viewport(30, 12);
    let text = shown(&all_rows(&mut a)).join("\n");
    assert!(
        text.contains('\u{2022}'),
        "items should preview as bullets:\n{text}"
    );
    assert!(
        !text.contains("- a"),
        "first item must not render raw:\n{text}"
    );
    assert!(
        !text.contains("- c"),
        "second item must not render raw:\n{text}"
    );
    let view = page(&mut a);
    assert_eq!(
        (view.first, view.last),
        (1, 1),
        "only the blank line is active"
    );
}

#[test]
fn empty_checkbox_renders_as_a_glyph_in_preview() {
    let mut a = app_with("- [x] done\n- [ ]\n");
    put(&mut a, 0);
    a.set_viewport(30, 10);
    let rows = shown(&all_rows(&mut a));
    assert!(
        rows.iter().any(|r| r.trim() == "\u{25a1}"),
        "empty checkbox should show □:\n{rows:?}"
    );
}

/// The page must be the one that a new app shows for the same text and cursor.
fn assert_matches_fresh_app(a: &mut App) {
    let mut fresh = app_with(&text(a));
    fresh.set_viewport(50, 15);
    put(&mut fresh, cur(a));
    let ours = all_rows(a);
    let theirs = all_rows(&mut fresh);
    assert_eq!(shown(&ours), shown(&theirs), "incremental rows == fresh rows");
    assert_eq!(ours.numbers, theirs.numbers, "incremental labels == fresh");
}

#[test]
fn incremental_view_matches_a_fresh_app_after_edits_and_undo() {
    let src = many_blocks(30);
    let mut a = app_with(&src);
    a.set_viewport(50, 15);
    put(&mut a, src.find("Paragraph 25").unwrap());
    type_str(&mut a, "intro ");
    press(&mut a, KeyCode::Enter);
    type_str(&mut a, "- new item");
    press(&mut a, KeyCode::Enter);
    assert_matches_fresh_app(&mut a);

    press_mod(&mut a, KeyCode::Char('z'), CTRL);
    assert_matches_fresh_app(&mut a);
}

#[test]
fn large_document_navigation_stays_consistent() {
    let src = many_blocks(2_000);
    let mut a = app_with(&src);
    a.set_viewport(100, 40);
    let target = src.find("Paragraph 1993").unwrap();
    put(&mut a, target);
    scroll(&mut a);

    let rows = visible(&mut a);
    assert!(!rows.lines.is_empty());
    assert!(a.desk.scroll_y > 0);
    type_str(&mut a, "updated ");
    a.set_viewport(50, 15);
    assert_matches_fresh_app(&mut a);
}

#[test]
fn the_line_under_the_cursor_is_source() {
    let source = "# Title\n\nA **bold** word.\n";
    let mut a = app_with(source);
    put(&mut a, source.find("bold").unwrap());
    let rows = shown(&all_rows(&mut a));
    assert_eq!(rows[0].trim_end(), "\u{25c6} Title", "elsewhere it is rendered");
    assert_eq!(rows[2], "A **bold** word.", "under the cursor it is source");
    let view = page(&mut a);
    let (col, row) = a.cursor_screen(&view);
    assert_eq!((col, row), (4, 2));
    assert!(matches!(view.rows[2], LiveRow::Source(2)));

    put(&mut a, 0);
    let rows = shown(&all_rows(&mut a));
    assert_eq!(rows[0], "# Title");
    assert_eq!(rows[2], "A bold word.");
}

#[test]
fn the_counters_follow_the_blocks() {
    let mut a = app_with("# Title\n\nbody text\n\n- one\n- two\n");
    assert_eq!(a.debug_stats().0, 0);
    let _ = a.editor.headings();
    let (blocks, stats) = a.debug_stats();
    assert_eq!((blocks, stats.full_rebuilds, stats.windowed_updates), (3, 1, 0));
}

#[test]
fn edit_rerenders_only_the_dirty_block() {
    let src = many_blocks(200);
    let mut a = app_with(&src);
    a.set_viewport(60, 20);
    let mut hl = CodeHighlighter::new(None, Vec::new(), true);
    let view = a.live_view(&mut hl);
    let _ = a.visible_rows(&view);
    let before = hl.block_renders();

    // Jump to a mid-document paragraph and type: only the block the cursor
    // left (now inactive, content unchanged but never rendered while active)
    // may render — everything else is found again.
    put(&mut a, src.find("Paragraph 25").unwrap());
    press(&mut a, KeyCode::Char('z'));
    let view = a.live_view(&mut hl);
    a.scroll_to_cursor(&view);
    let _ = a.visible_rows(&view);
    let after = hl.block_renders();
    assert!(
        after <= before + 2,
        "a one-block edit re-renders at most the blocks it touched: {before} -> {after}"
    );
    assert!(before > 100, "the blocks were rendered once");
    assert_eq!(view.rows.len(), page(&mut a).rows.len(), "what is held is right");
}

#[test]
fn a_pause_ends_a_run_of_typing() {
    let mut a = app();
    a.set_clock(10_000);
    type_str(&mut a, "ab");
    a.set_clock(11_000);
    type_str(&mut a, "c");
    a.set_clock(13_000);
    type_str(&mut a, "de");
    run(&mut a, Action::Undo);
    assert_eq!(text(&a), "abc");
    run(&mut a, Action::Undo);
    assert_eq!(text(&a), "");
    run(&mut a, Action::Redo);
    assert_eq!(text(&a), "abc");
}

#[test]
fn an_angle_pairs_where_it_cannot_compare() {
    let mut a = app();
    type_str(&mut a, "<");
    assert_eq!(text(&a), "<>");
    let mut a = app();
    type_str(&mut a, "see: <");
    assert_eq!(text(&a), "see: <>");
    let mut a = app();
    type_str(&mut a, "f(x) < 1");
    assert_eq!(text(&a), "f(x) < 1");
}

#[test]
fn sequential_numbers_are_left_as_they_are_written() {
    for src in ["007. a\n", "01. a\n02. b\n", "3. a\n4. b\n"] {
        let mut a = app_with(src);
        a.editor.renumber_ordered_run();
        assert_eq!(text(&a), src);
    }
    let mut a = app_with("1. a\n3. b\n");
    a.editor.renumber_ordered_run();
    assert_eq!(text(&a), "1. a\n2. b\n");
}

#[test]
fn no_list_is_drawn_while_none_is_open() {
    let mut a = app_with("# One\n");
    assert!(open_picker(&mut a).is_none());
}

#[test]
fn open_lists_are_drawn_with_their_rows() {
    let mut a = app_with("# One\n\n### Deep\n\n# One\n");
    run(&mut a, Action::Outline);
    let page = open_picker(&mut a).unwrap();
    assert_eq!(page.title, "Outline: ");
    let rows: Vec<(&str, bool)> = page.rows.iter().map(|r| (r.text.as_str(), r.selected)).collect();
    assert_eq!(rows, [("One", true), ("    Deep", false), ("One", false)]);
    press(&mut a, KeyCode::Esc);

    run(&mut a, Action::Diagnostics);
    let page = open_picker(&mut a).unwrap();
    assert_eq!(page.title, "Diagnostics");
    let rows: Vec<(&str, bool)> = page.rows.iter().map(|r| (r.text.as_str(), r.selected)).collect();
    assert_eq!(rows, [("5: Duplicate heading (first at line 1)", true)]);
    press(&mut a, KeyCode::Esc);

    run(&mut a, Action::CommandPalette);
    type_str(&mut a, "quit");
    let page = open_picker(&mut a).unwrap();
    assert_eq!(page.title, "Commands: quit");
    assert_eq!(page.rows[0].text, format!("{:<32}Ctrl+Q", "Quit"));
    assert!(page.rows[0].selected);
}

#[test]
fn the_selected_row_of_a_list_stays_in_view() {
    let mut a = app_with("# A\n\n# B\n\n# C\n\n# D\n");
    run(&mut a, Action::Outline);
    let texts = |a: &mut App, height: usize| -> Vec<String> {
        let page = open_picker(a).unwrap();
        picker_lines(&page, a.theme(), height)
            .iter()
            .map(|l| l.spans[0].text.clone())
            .collect()
    };
    assert_eq!(texts(&mut a, 2), ["A", "B"]);
    press(&mut a, KeyCode::Down);
    press(&mut a, KeyCode::Down);
    assert_eq!(texts(&mut a, 2), ["B", "C"]);
    assert_eq!(texts(&mut a, 9), ["A", "B", "C", "D"]);
    assert!(texts(&mut a, 0).is_empty());
    let page = open_picker(&mut a).unwrap();
    let lines = picker_lines(&page, a.theme(), 2);
    assert_eq!(lines[0].spans[0].style, a.theme().text);
    assert_eq!(lines[1].spans[0].style, a.theme().keyword_note);
}
