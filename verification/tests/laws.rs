//! What holds of the library as a whole, on chosen values.

use marqi::action::Action;
use marqi::app::{App, Mode};
use marqi::buffer::TextBuffer;
use marqi::config::Config;
use marqi::formatting::{next_heading, toggle_checkbox, toggle_marks, toggle_prefix};
use marqi::fuzzy::move_selection;
use marqi::layout::Layout;
use marqi::line_input::{Key, KeyCode};
use marqi::list_marker::{parse_list_marker, ListMarkerKind};
use marqi::markdown::flow::{line_text, merge_spans, wrap};
use marqi::markdown::grid::shrink_to_fit;
use marqi::markdown::theme::{theme_from_name, MarkdownTheme, ThemeName, ThemeVariant};
use marqi::navigation::{follow_link, Follow};
use marqi::row_cache::RowCache;
use marqi::style::{Span, Style};
use ropey::Rope;

fn app_with(src: &str) -> App {
    let theme = MarkdownTheme::named(ThemeName::Marqi, ThemeVariant::Dark, true);
    let mut a = App::new(TextBuffer::scratch(src, "test.md"), theme, true);
    a.set_viewport(40, 10);
    a
}

fn press(a: &mut App, code: KeyCode) {
    let _ = a.handle_key(Key::plain(code));
}

#[test]
fn the_preview_takes_no_text() {
    let mut a = app_with("text");
    let _ = a.run_action(Action::TogglePreview);
    for code in [
        KeyCode::Char('x'),
        KeyCode::Enter,
        KeyCode::Backspace,
        KeyCode::Delete,
        KeyCode::Tab,
    ] {
        press(&mut a, code);
        assert_eq!(a.editor.text(), "text");
    }
}

#[test]
fn view_commands_keep_the_text() {
    let mut a = app_with("text");
    for action in [
        Action::TogglePreview,
        Action::TogglePreview,
        Action::ToggleRaw,
        Action::ToggleStats,
        Action::CommandPalette,
    ] {
        let _ = a.run_action(action);
        assert_eq!(a.editor.text(), "text");
    }
}

#[test]
fn disabled_commands_do_nothing() {
    let mut a = app_with("text");
    let _ = a.run_action(Action::TogglePreview);
    assert!(!a.action_enabled(Action::Cut));
    let _ = a.run_action(Action::Cut);
    assert_eq!(a.editor.text(), "text");
    assert_eq!(a.desk.mode, Mode::Read);
}

#[test]
fn a_prompt_takes_what_is_typed() {
    let mut a = app_with("text");
    let _ = a.run_action(Action::Find);
    press(&mut a, KeyCode::Char('z'));
    assert_eq!(a.editor.text(), "text");
    assert_eq!(a.prompt_view().unwrap().text.contains('z'), true);
}

#[test]
fn marks_and_boxes_toggle_back() {
    assert_eq!(toggle_marks("word", "**"), "**word**");
    assert_eq!(toggle_marks("**word**", "**"), "word");
    assert_eq!(toggle_prefix("text", "> "), "> text");
    assert_eq!(toggle_prefix("> text", "> "), "text");
    assert_eq!(toggle_checkbox("- [ ] a"), "- [x] a");
    assert_eq!(toggle_checkbox("- [x] a"), "- [ ] a");
}

#[test]
fn a_selection_stays_inside_its_list() {
    assert_eq!(move_selection(0, 3, true), 1);
    assert_eq!(move_selection(2, 3, true), 2);
    assert_eq!(move_selection(0, 3, false), 0);
    assert_eq!(move_selection(5, 0, true), 0);
}

#[test]
fn columns_are_shrunk_to_fit() {
    let mut columns = vec![20, 4, 20];
    shrink_to_fit(&mut columns, 24);
    assert_eq!(columns.iter().sum::<usize>(), 24);
    assert_eq!(columns[1], 4, "narrow columns keep their width");
}

fn span(text: &str) -> Span {
    Span::styled(text.to_owned(), Style::new())
}

#[test]
fn merging_and_wrapping_keep_the_text() {
    let merged = merge_spans(&vec![span("one "), span("two")]);
    assert_eq!(merged.spans.len(), 1);
    assert_eq!(line_text(&merged), "one two");
    let rows = wrap(&vec![span("one two three")], 7, true);
    let texts: Vec<String> = rows.iter().map(line_text).collect();
    assert_eq!(texts, ["one ", "two ", "three"]);
}

#[test]
fn every_theme_is_found_by_its_configuration_name() {
    let names = ThemeName::all();
    assert_eq!(names.len(), 9);
    for name in &names {
        assert_eq!(theme_from_name(name.config_name()), Some(*name));
        assert_eq!(names.iter().filter(|other| *other == name).count(), 1);
    }
}

#[test]
fn the_defaults_are_valid() {
    assert_eq!(Config::default().validate_warning(), None);
}

#[test]
fn rows_kept_across_an_edit_are_right() {
    let mut rope = Rope::from_str("aa\nbb\ncc\n");
    let mut layout = Layout::build(&rope, 10, 4);
    let mut cache = RowCache::new();
    for line in 0..3 {
        let _ = cache.line_rows(&layout, line);
    }
    rope.insert(3, "x");
    layout.update_after_edit(&rope, 10, 4, 1, 1, 1);
    cache.forget_edited(1, 1, 1);
    assert_eq!(cache.line_rows(&layout, 0)[0].width, 2);
    assert_eq!(cache.line_rows(&layout, 1)[0].width, 3);
    assert_eq!(cache.line_rows(&layout, 2)[0].width, 2);
}

#[test]
fn links_lead_where_they_say() {
    match follow_link("see <https://a.example/b>", 6) {
        Follow::External(url) => assert_eq!(url, "https://a.example/b"),
        _ => panic!("expected an external address"),
    }
}

#[test]
fn headings_cycle_through_six_levels() {
    let mut line = String::from("  Title");
    for level in 1..=6 {
        line = next_heading(&line);
        assert_eq!(line, format!("  {} Title", "#".repeat(level)));
    }
    assert_eq!(next_heading(&line), "  Title");
}

#[test]
fn continued_markers_are_read_as_the_next_item() {
    let next = |line: &str| {
        let text = parse_list_marker(line).unwrap().continuation_prefix() + "x";
        parse_list_marker(&text).unwrap()
    };
    assert_eq!(next("  9)  item").kind, ListMarkerKind::Ordered { number: 10, delimiter: ')' });
    assert_eq!(next("  9)  item").indent, "  ");
    assert_eq!(next("  9)  item").spacing, "  ");
    assert_eq!(next("* item").kind, ListMarkerKind::Bullet('*'));
    assert_eq!(next("\t- [x] done").kind, ListMarkerKind::Task('-'));
    assert_eq!(next("\t- [x] done").prefix_len, 7);
}

#[test]
fn numbers_are_read_as_they_are_written() {
    for number in [0u64, 7, 10, 4096, 999_999_999] {
        let marker = parse_list_marker(&format!("{number}. item")).unwrap();
        assert_eq!(marker.kind, ListMarkerKind::Ordered { number, delimiter: '.' });
    }
    assert!(parse_list_marker("1000000000. item").is_none());
}

#[test]
fn no_two_commands_share_a_label() {
    let labels: Vec<&str> = Action::all().into_iter().map(Action::label).collect();
    for (i, label) in labels.iter().enumerate() {
        assert!(!labels[i + 1..].contains(label), "{label}");
    }
}

#[test]
fn places_of_plain_text_lead_back_to_their_bytes() {
    let text = "abcdef\n\n0123456789 ~\n";
    let rope = Rope::from_str(text);
    for wrap in [1usize, 3, 80] {
        let layout = Layout::build(&rope, wrap, 4);
        for byte in 0..=text.len() {
            let (row, col) = layout.byte_to_pos(byte);
            assert!(row < layout.len() && usize::from(col) <= wrap);
            assert_eq!(layout.pos_to_byte(row, col), byte);
        }
    }
}
