//! Configuration, buffers, diagnostics, outlines, the palette, prompts and the user interface.

use marqi::app::prompt::resolve_save_path;
use marqi::app::App;
use marqi::buffer::{fingerprint, DiskState, FilePath, TextBuffer};
use marqi::config::{settings_to_write, Config, Loaded};
use marqi::diagnostics::diagnose;
use marqi::fuzzy::{fuzzy_score, score_lowered};
use marqi::live::LiveView;
use marqi::markdown::highlight::CodeHighlighter;
use marqi::markdown::theme::ThemeVariant;
use marqi::outline::parse_heading;
use marqi::style::Line;
use marqi::ui::{
    build_status, clip_to_width, cursor_position, guide_lines, gutter_lines, gutter_width,
    margin_width, popup_area, setting_rows, Area,
};

fn text_of(line: &Line) -> String {
    line.spans.iter().map(|s| s.text.as_str()).collect()
}

fn display_width(text: &str) -> usize {
    unicode_width::UnicodeWidthStr::width(text)
}

fn configured(content: &str, config: &Config) -> App {
    App::with_config(
        TextBuffer::scratch(content, "test.md"),
        config,
        ThemeVariant::Dark,
        true,
    )
}

fn page(app: &mut App) -> LiveView {
    app.live_view(&mut CodeHighlighter::new(None, Vec::new(), true))
}

#[test]
fn reports_supported_markdown_problems() {
    let source =
        "# Same\n# Same\n\n[link][missing]\n\n| A | B |\n| -- | nope |\n\n```rust\ncode\n";
    let items = diagnose(source);
    assert!(items.iter().any(|item| item.message.contains("Duplicate")));
    assert!(items
        .iter()
        .any(|item| item.message.contains("Broken reference")));
    assert!(items
        .iter()
        .any(|item| item.message.contains("Malformed table")));
    assert!(items.iter().any(|item| item.message.contains("Unmatched")));
}

#[test]
fn tolerates_bare_pipe_lines() {
    diagnose("|\n| x |\n");
    diagnose("|\n|\n");
    diagnose("  |  \n| a | b |\n");
}

#[test]
fn parses_atx_and_setext_headings() {
    assert_eq!(parse_heading("### Title ###\n"), Some((3, "Title".into())));
    assert_eq!(parse_heading("Title\n=====\n"), Some((1, "Title".into())));
}

#[test]
fn fuzzy_matching_prefers_consecutive_letters() {
    assert!(fuzzy_score("Toggle raw source", "raw").is_some());
    assert!(fuzzy_score("Toggle raw source", "tgr").is_some());
    assert!(fuzzy_score("Save", "xyz").is_none());
    assert!(fuzzy_score("Raw", "raw").unwrap() > fuzzy_score("Redo action work", "raw").unwrap());
}

#[test]
fn fuzzy_word_start_bonus_handles_multibyte_prefixes() {
    assert!(fuzzy_score("café bar", "bar") > fuzzy_score("cafébar", "bar"));
}

#[test]
fn rejects_empty_and_resolves_relative() {
    assert!(resolve_save_path("   ", &None).is_none());
    assert_eq!(
        resolve_save_path(" notes.md ", &None).unwrap(),
        "notes.md"
    );
}

#[test]
fn expands_leading_tilde() {
    let home = Some("/home/me".to_owned());
    assert_eq!(
        resolve_save_path("~/a/b.md", &home).unwrap(),
        "/home/me/a/b.md"
    );
    assert_eq!(resolve_save_path("~", &home).unwrap(), "/home/me");
}

#[test]
fn theme_name_parses_from_toml() {
    let mut found = Config::default();
    found.theme.name = "catppuccin".to_owned();
    found.theme.variant = "dark".to_owned();
    let (cfg, warning) = Config::load_with_warning(Some("/c.toml"), Loaded::Parsed(found));
    assert!(warning.is_none(), "warning: {warning:?}");
    assert_eq!(cfg.theme.name, "catppuccin");
    assert_eq!(cfg.theme.variant, "dark");
}

#[test]
fn missing_config_is_quiet_default() {
    let (cfg, warning) = Config::load_with_warning(Some("/c.toml"), Loaded::Missing);
    assert!(warning.is_none());
    assert_eq!(cfg.editor.keybindings, "standard");
    assert_eq!(cfg.editor.line_numbers, "off");
    assert!(cfg.editor.heading_glyphs);
    assert_eq!(cfg.editor.left_margin, 1);
    assert_eq!(cfg.theme.variant, "auto");
    assert_eq!(
        cfg.theme.name, "",
        "unset name selects the per-mode default"
    );
}

#[test]
fn left_margin_accepts_zero_and_rejects_negatives() {
    let mut found = Config::default();
    found.editor.left_margin = 0;
    let (cfg, warning) = Config::load_with_warning(Some("/c.toml"), Loaded::Parsed(found));
    assert!(warning.is_none());
    assert_eq!(cfg.editor.left_margin, 0);

    let reason = "invalid value: integer `-1`, expected usize".to_owned();
    let (cfg, warning) = Config::load_with_warning(Some("/c.toml"), Loaded::Failed(reason));
    assert!(warning.is_some(), "a negative margin must warn");
    assert_eq!(cfg.editor.left_margin, 1, "and fall back to the default");
}

#[test]
fn invalid_config_returns_warning_and_defaults() {
    let reason = "invalid table header".to_owned();
    let (cfg, warning) = Config::load_with_warning(Some("/c.toml"), Loaded::Failed(reason));
    assert!(warning.is_some());
    assert_eq!(cfg.editor.tab_width, 4);
}

#[test]
fn unknown_keys_and_values_warn() {
    let reason = "unknown field `line_numers`".to_owned();
    let (_, warning) = Config::load_with_warning(Some("/c.toml"), Loaded::Failed(reason));
    assert!(warning.is_some(), "a typo'd key must not pass silently");

    let mut found = Config::default();
    found.editor.keybindings = "vmi".to_owned();
    let (cfg, warning) = Config::load_with_warning(Some("/c.toml"), Loaded::Parsed(found));
    assert!(warning.is_some(), "an unknown value must warn");
    assert_eq!(cfg.editor.keybindings, "vmi", "the config still loads");
}

#[test]
fn invalid_theme_settings_warn() {
    let mut found = Config::default();
    found.editor.tab_width = 0;
    found.theme.name = "mystery".to_owned();
    found.theme.syntax = Some("missing".to_owned());
    found.theme.markdown = vec![
        ("heading1".to_owned(), "red".to_owned()),
        ("heding2".to_owned(), "#ffffff".to_owned()),
    ];
    let (_, warning) = Config::load_with_warning(Some("/c.toml"), Loaded::Parsed(found));
    let warning = warning.expect("invalid theme settings should warn");
    assert!(warning.contains("editor.tab_width = 0"));
    assert!(warning.contains("theme.name"));
    assert!(warning.contains("theme.syntax"));
    assert!(warning.contains("theme.markdown.heading1"));
    assert!(warning.contains("theme.markdown.heding2"));
}

#[test]
fn explicit_config_dir_loads_config_toml() {
    let mut found = Config::default();
    found.editor.keybindings = "emacs".to_owned();
    let (cfg, warning) =
        Config::load_from_arg_with_warning("/etc/marqi/config.toml", true, Loaded::Parsed(found));
    assert!(warning.is_none());
    assert_eq!(cfg.editor.keybindings, "emacs");
}

#[test]
fn explicit_config_file_loads_directly() {
    let mut found = Config::default();
    found.editor.line_numbers = "relative".to_owned();
    let (cfg, warning) =
        Config::load_from_arg_with_warning("/etc/marqi.toml", true, Loaded::Parsed(found));
    assert!(warning.is_none());
    assert_eq!(cfg.editor.line_numbers, "relative");
    assert_eq!(cfg.source_path.as_deref(), Some("/etc/marqi.toml"));
}

#[test]
fn explicit_missing_path_warns() {
    let (_, warning) = Config::load_from_arg_with_warning("/no/such", false, Loaded::Missing);
    assert!(warning.is_some(), "-c with a missing path must warn");
}

fn path(full: &str) -> FilePath {
    FilePath {
        full: full.to_owned(),
        file_name: full.rsplit('/').next().map(|n| n.to_owned()),
        key: full.to_owned(),
    }
}

fn on_disk(text: &str) -> DiskState {
    fingerprint(text.as_bytes(), text.len() as u64, Some(1))
}

#[test]
fn load_save_round_trips_bytes() {
    let original = "# Title\n\nLine with 中文 and 👨‍👩‍👧‍👦.\n";
    let state = on_disk(original);
    let mut buf = TextBuffer::from_path(path("/tmp/roundtrip.md"), Some((original, state)));
    assert!(!buf.modified());
    assert_eq!(buf.rope().to_string(), original, "nothing is reformatted");
    buf.saved(state);
    assert!(!buf.has_external_change(state));
}

#[test]
fn save_detects_external_changes() {
    let mut buf = TextBuffer::from_path(
        path("/tmp/external.md"),
        Some(("original", on_disk("original"))),
    );
    buf.insert(0, "local ");
    assert!(buf.has_external_change(on_disk("external")));
    assert_eq!(buf.rope().to_string(), "local original");

    buf.saved(on_disk("local original"));
    assert!(!buf.has_external_change(on_disk("local original")));
}

#[test]
fn missing_path_yields_empty_named_buffer() {
    let buf = TextBuffer::from_path(path("/tmp/missing_xyz.md"), None);
    assert_eq!(buf.rope().len_chars(), 0);
    assert_eq!(buf.file_name(), "missing_xyz.md");
}

#[test]
fn empty_buffer_has_no_name() {
    assert_eq!(TextBuffer::empty().file_name(), "[No Name]");
}

#[test]
fn save_as_makes_an_unnamed_buffer_saveable() {
    let mut buf = TextBuffer::scratch("piped text", "[stdin]");
    assert!(!buf.has_path());
    buf.save_as(path("/tmp/saveas.md"), on_disk("piped text"));
    assert!(buf.has_path());
    assert_eq!(buf.file_name(), "saveas.md");
    assert_eq!(buf.rope().to_string(), "piped text");
}

#[test]
fn crlf_files_insert_crlf_newlines() {
    assert_eq!(TextBuffer::scratch("a\r\nb\r\n", "[t]").newline(), "\r\n");
    assert_eq!(TextBuffer::scratch("a\nb\n", "[t]").newline(), "\n");
    assert_eq!(TextBuffer::empty().newline(), "\n");
}

#[test]
fn scratch_buffer_holds_content_under_a_name() {
    let buf = TextBuffer::scratch("# Piped\n\nhi", "[stdin]");
    assert_eq!(buf.file_name(), "[stdin]");
    assert_eq!(buf.rope().to_string(), "# Piped\n\nhi");
    assert!(!buf.modified());
}

#[test]
fn clipping_preserves_whole_graphemes() {
    assert_eq!(clip_to_width("a中b", 3), "a中");
    assert_eq!(clip_to_width("👨‍👩‍👧‍👦x", 2), "👨‍👩‍👧‍👦");
}

#[test]
fn status_bar_fills_width_with_badge_position_and_hints() {
    let mut app = configured("hi\n", &Config::default());
    app.set_viewport(80, 10);
    let view = page(&mut app);
    app.scroll_to_cursor(&view);
    let line = build_status(&mut app, 80, None);
    let text = text_of(&line);
    assert_eq!(display_width(&text), 80, "status bar spans the full width");
    assert!(text.starts_with(" INSERT "), "mode badge leads: {text:?}");
    assert!(text.contains("test.md"));
    assert!(text.contains("Ln 1, Col 1"));
    assert!(text.contains("^G menu"));
    assert!(
        !text.contains("preview") && !text.contains("cursor:block"),
        "footer stays minimal: {text:?}"
    );
}

#[test]
fn guide_is_filtered_to_the_active_preset() {
    let flat = |app: &App| -> String { guide_lines(app, false).iter().map(text_of).collect() };

    let mut vim_cfg = Config::default();
    vim_cfg.editor.keybindings = "vim".to_owned();
    let vim = configured("x\n", &vim_cfg);
    let text = flat(&vim);
    assert!(text.contains("Vim"), "Vim section present: {text}");
    assert!(!text.contains("Emacs"), "other presets hidden: {text}");
    assert!(!text.contains("Nano"));

    let std_app = configured("x\n", &Config::default());
    let text = flat(&std_app);
    assert!(text.contains("Standard"));
    assert!(!text.contains("Vim"));
}

#[test]
fn narrow_status_bar_keeps_the_left_side() {
    let mut app = configured("hi\n", &Config::default());
    app.set_viewport(20, 10);
    let line = build_status(&mut app, 20, None);
    let text = text_of(&line);
    assert!(text.contains("test.md"), "filename survives narrowing");
    assert!(display_width(&text) <= 20);
}

#[test]
fn gutter_formats_absolute_line_numbers() {
    let mut cfg = Config::default();
    cfg.editor.line_numbers = "absolute".to_owned();
    let mut app = configured("a\nb\n", &cfg);
    app.set_viewport(20, 4);
    let view = page(&mut app);
    app.scroll_to_cursor(&view);

    let width = gutter_width(&app, 20);
    assert_eq!(width, 2);
    let assembled = app.visible_rows(&view);
    let lines = gutter_lines(&app, &assembled.numbers, width, 2);
    assert_eq!(text_of(&lines[0]), "1 ");
}

#[test]
fn gutter_stays_off_by_default() {
    let mut app = configured("a\n", &Config::default());
    app.set_viewport(20, 4);
    assert_eq!(gutter_width(&app, 20), 0);
}

#[test]
fn a_margin_leaves_a_content_column() {
    assert_eq!(margin_width(1, 20), 1);
    assert_eq!(margin_width(0, 20), 0);
    assert_eq!(margin_width(100, 10), 9);
    assert_eq!(margin_width(3, 0), 0);
}

#[test]
fn the_cursor_stands_where_its_row_is_shown() {
    let mut app = configured("hi\n", &Config::default());
    app.set_viewport(20, 4);
    app.editor.place_cursor(2);
    let area = Area {
        x: 3,
        y: 1,
        width: 17,
        height: 4,
    };
    let view = page(&mut app);
    assert_eq!(cursor_position(&mut app, &view, area), Some((5, 1)));
}

#[test]
fn the_popup_lies_inside_the_screen() {
    let area = Area {
        x: 0,
        y: 0,
        width: 40,
        height: 12,
    };
    let popup = popup_area(area, 30);
    assert!(popup.x + popup.width <= 40);
    assert!(popup.y + popup.height <= 12);
    let app = configured("hi\n", &Config::default());
    assert_eq!(setting_rows(&app).len(), 4);
}

#[test]
fn explicit_dir_without_config_warns() {
    let (_, warning) =
        Config::load_from_arg_with_warning("/etc/marqi/config.toml", false, Loaded::Missing);
    assert!(warning.is_some(), "-c with no config.toml must warn");
}

/// The first row of the editor: the margin, the gutter and the content.
fn first_row(app: &mut App, width: u16) -> String {
    let margin = margin_width(app.left_margin(), width);
    let rest = usize::from(width - margin);
    let columns = gutter_width(app, rest);
    app.set_viewport(rest - columns, 4);
    let view = page(app);
    app.scroll_to_cursor(&view);
    let rows = app.visible_rows(&view);
    let gutter = gutter_lines(app, &rows.numbers, columns, 4);
    let content = clip_to_width(&text_of(&rows.lines[0]), rest - columns);
    let padding = " ".repeat(usize::from(margin));
    let line = format!("{padding}{}{content}", text_of(&gutter[0]));
    format!("{line:<w$}", w = usize::from(width))
}

#[test]
fn default_left_margin_pads_one_column() {
    let mut app = configured("hi\n", &Config::default());
    assert!(first_row(&mut app, 20).starts_with(" hi"));
}

#[test]
fn left_margin_zero_starts_at_the_edge() {
    let mut cfg = Config::default();
    cfg.editor.left_margin = 0;
    let mut app = configured("hi\n", &cfg);
    assert!(first_row(&mut app, 20).starts_with("hi"));
}

#[test]
fn left_margin_shifts_content_and_gutter() {
    let mut cfg = Config::default();
    cfg.editor.left_margin = 3;
    cfg.editor.line_numbers = "absolute".to_owned();
    let mut app = configured("hi\n", &cfg);
    assert!(first_row(&mut app, 20).starts_with("   1 hi"));
}

#[test]
fn oversized_left_margin_keeps_a_content_column() {
    let mut cfg = Config::default();
    cfg.editor.left_margin = 100;
    let mut app = configured("hi\n", &cfg);
    assert_eq!(first_row(&mut app, 10), "         h");
}

#[test]
fn the_settings_are_written_under_their_names() {
    let written: Vec<_> = settings_to_write("vim", "off", "nord", "dark")
        .into_iter()
        .map(|s| format!("{}.{}={}", s.section, s.key, s.value))
        .collect();
    assert_eq!(
        written,
        ["editor.keybindings=vim", "editor.line_numbers=off", "theme.name=nord", "theme.variant=dark"]
    );
}

#[test]
fn equal_headings_all_name_the_first() {
    let messages: Vec<(usize, String)> = diagnose("# Same\n\n# Other\n\n# Same\n\n# same\n")
        .into_iter()
        .map(|item| (item.line, item.message))
        .collect();
    assert_eq!(
        messages,
        [
            (4, "Duplicate heading (first at line 1)".to_owned()),
            (6, "Duplicate heading (first at line 1)".to_owned()),
        ]
    );
}

#[test]
fn lowered_labels_score_by_runs_and_word_starts() {
    let chars = |s: &str| s.chars().collect::<Vec<char>>();
    assert_eq!(
        score_lowered(&chars("toggle raw"), &chars("raw")),
        fuzzy_score("Toggle Raw", "RAW")
    );
    assert_eq!(score_lowered(&chars("toggle raw"), &chars("raw")), Some(23));
    assert_eq!(score_lowered(&chars("save"), &chars("xyz")), None);
    assert_eq!(score_lowered(&chars("Save"), &chars("save")), None);
}

#[test]
fn bad_overrides_are_reported_in_order() {
    let mut found = Config::default();
    found.theme.markdown = vec![
        ("zebra".to_owned(), "#ffffff".to_owned()),
        ("heading1".to_owned(), "red".to_owned()),
        ("apple".to_owned(), "#ffffff".to_owned()),
    ];
    let (_, warning) = Config::load_with_warning(Some("/c.toml"), Loaded::Parsed(found));
    assert_eq!(
        warning.unwrap(),
        "Config: invalid setting(s): theme.markdown.apple, theme.markdown.heading1 = \"red\", \
         theme.markdown.zebra"
    );
}
