//! Markdown: the preview, the raw highlighting, the themes and the code highlighter.

use marqi::color::{parse_hex, rgb, rgb_to_ansi256, Color};
use marqi::markdown::ast::{gfm_options, parse, Extensions};
use marqi::markdown::flow::line_text;
use marqi::markdown::highlight::{bundled_theme, CodeHighlighter};
use marqi::markdown::preview::{render, render_block_with_hole, render_rows, ActiveLeaf};
use marqi::markdown::theme::{
    detect_variant, heading_ladder, mix, theme_from_name, variant_from_colorfgbg, MarkdownTheme,
    ThemeName, ThemeVariant,
};
use marqi::markdown::tokenizer::highlight;
use marqi::style::{Line, Span};

fn theme_now() -> MarkdownTheme {
    MarkdownTheme::named(ThemeName::Marqi, ThemeVariant::Dark, true)
}

fn plain_highlighter() -> CodeHighlighter {
    CodeHighlighter::new(None, Vec::new(), true)
}

#[test]
fn every_palette_pairing_resolves_and_highlights() {
    for name in [
        ThemeName::Marqi,
        ThemeName::OneDark,
        ThemeName::Github,
        ThemeName::Catppuccin,
        ThemeName::TokyoNight,
        ThemeName::Gruvbox,
        ThemeName::Nord,
        ThemeName::Dracula,
        ThemeName::Solarized,
    ] {
        for variant in [ThemeVariant::Dark, ThemeVariant::Light] {
            let pairing = MarkdownTheme::named(name, variant, true).default_syntax_theme();
            assert!(CodeHighlighter::has_theme(pairing), "{pairing:?} is known");
            let mut hl = CodeHighlighter::new(Some(pairing), Vec::new(), true);
            let rows = hl.highlight("rust", "fn main() { let x = 1; }\n", 40);
            assert!(
                !rows.is_empty(),
                "{name:?}/{variant:?} via {pairing:?} highlights"
            );
        }
    }
}

#[test]
fn code_is_coloured_by_its_language() {
    let mut hl = plain_highlighter();
    let rows = hl.highlight("rust", "let x = 1;\n", 40);
    assert_eq!(rows.len(), 1);
    let text: String = rows[0].line.spans.iter().map(|s| s.text.as_str()).collect();
    assert_eq!(text.trim_end(), "let x = 1;");
    let styles: Vec<_> = rows[0].line.spans.iter().map(|s| s.style.fg).collect();
    assert!(styles.iter().any(|fg| *fg != styles[0]), "{styles:?}");
    assert_eq!(bundled_theme("dracula"), Some("dracula.tmTheme"));
    assert_eq!(bundled_theme("base16-ocean.dark"), None);
}

#[test]
fn the_variant_follows_the_hints() {
    let none: Vec<String> = Vec::new();
    assert_eq!(
        detect_variant(&vec!["light".to_owned()], None, None),
        ThemeVariant::Light
    );
    assert_eq!(detect_variant(&none, Some(true), None), ThemeVariant::Light);
    assert_eq!(
        detect_variant(&none, None, Some("0;15")),
        ThemeVariant::Light
    );
    assert_eq!(detect_variant(&none, None, None), ThemeVariant::Dark);
}


#[test]
fn deeply_nested_quotes_render_without_overflowing() {
    let src = format!("{} deep", ">".repeat(20_000));
    let out = render_plain(&src, 40);
    assert!(out.contains('\u{2026}'));
}

fn render_plain(src: &str, width: usize) -> String {
    let theme = theme_now();
    let mut hl = plain_highlighter();
    render(src, width, &theme, &mut hl)
        .iter()
        .map(|l| {
            l.spans
                .iter()
                .map(|s| s.text.as_str())
                .collect::<String>()
        })
        .collect::<Vec<_>>()
        .join("\n")
}

#[test]
fn body_text_has_an_explicit_foreground() {
    // Regression: body text must not defer to the terminal default (which
    // can render as a dim gray), so that text after a styled run (e.g. an
    // inline code span) stays clearly readable.
    let theme = theme_now();
    let mut hl = plain_highlighter();
    let lines = render("and `code`, then more text", 40, &theme, &mut hl);
    let after = lines[0]
        .spans
        .iter()
        .find(|s| s.text.contains("then more"))
        .expect("trailing text span");
    assert_ne!(after.style.fg, Some(Color::Reset));
    assert!(after.style.fg.is_some());
}

#[test]
fn heading_markers_are_stripped() {
    let text = render_plain("# Hello world", 40);
    assert!(text.contains("Hello world"));
    assert!(!text.contains('#'));
}

#[test]
fn heading_glyphs_are_preview_only() {
    let text = render_plain("# Hello world", 40);
    assert!(text.contains('\u{25c6}'));
    assert!(text.contains("Hello world"));
}

#[test]
fn emphasis_markers_are_stripped() {
    let text = render_plain("a **bold** and *italic* word", 40);
    assert!(!text.contains('*'));
    assert!(text.contains("bold"));
    assert!(text.contains("italic"));
}

#[test]
fn task_list_shows_checkboxes_not_brackets() {
    let text = render_plain("- [x] done\n- [ ] todo", 40);
    assert!(text.contains('\u{25a0}')); // checked box ■
    assert!(text.contains('\u{25a1}')); // empty box □
    assert!(!text.contains("[x]"));
}

#[test]
fn long_paragraph_wraps_to_width() {
    let text = render_plain("one two three four five six seven eight nine ten", 12);
    for line in text.lines() {
        assert!(
            unicode_width::UnicodeWidthStr::width(line) <= 12,
            "line too wide: {line:?}"
        );
    }
}

#[test]
fn table_renders_a_grid() {
    let src = "| A | B |\n| - | - |\n| 1 | 2 |";
    let text = render_plain(src, 40);
    assert!(text.contains('\u{2502}')); // vertical border │
    assert!(text.contains('\u{256d}')); // top-left corner ╭
}

#[test]
fn table_cells_keep_inline_styles() {
    let theme = theme_now();
    let mut hl = plain_highlighter();
    let src = "| Name | Note |\n| --- | --- |\n| **bob** | `x` |\n";
    let (mut bold_bob, mut code_x) = (false, false);
    for line in render(src, 40, &theme, &mut hl) {
        for s in &line.spans {
            if s.text.as_str() == "bob" && s.style.bold {
                bold_bob = true;
            }
            if s.text.as_str() == "x" && s.style == theme.code_inline {
                code_x = true;
            }
        }
    }
    assert!(bold_bob, "a **bold** table cell should render bold");
    assert!(code_x, "a `code` table cell should use the code style");
}

#[test]
fn keywords_receive_special_styles() {
    let theme = theme_now();
    let mut hl = plain_highlighter();
    let lines = render("TODO and ERROR", 40, &theme, &mut hl);
    let mut saw_todo = false;
    let mut saw_error = false;
    for span in &lines[0].spans {
        if span.text.as_str() == "TODO" && span.style == theme.keyword_note {
            saw_todo = true;
        }
        if span.text.as_str() == "ERROR" && span.style == theme.keyword_error {
            saw_error = true;
        }
    }
    assert!(saw_todo);
    assert!(saw_error);
}

#[test]
fn footnote_reference_and_definition_are_visible() {
    let text = render_plain("Here is a note[^1].\n\n[^1]: the note body.", 60);
    // The reference marker renders as a visible index rather than vanishing,
    // and the definition keeps a matching label.
    assert!(
        text.contains("[1]"),
        "footnote reference should render: {text:?}"
    );
    assert!(
        text.contains("[1]:"),
        "footnote definition should keep its label: {text:?}"
    );
    assert!(text.contains("the note body"));
}

#[test]
fn empty_list_items_show_their_raw_marker() {
    // An empty bullet / number / checkbox item shows its raw source marker
    // instead of a prettified glyph, so the empty item stays visible.
    let bullet = render_plain("- a\n- \n- b", 40);
    assert!(
        bullet.lines().any(|l| l.trim() == "-"),
        "empty bullet -> '-':\n{bullet}"
    );
    let num = render_plain("1. x\n2. \n3. z", 40);
    assert!(
        num.lines().any(|l| l.trim() == "2."),
        "empty number -> '2.':\n{num}"
    );
    let task = render_plain("- [ ] a\n- [ ] ", 40);
    assert!(
        task.lines().any(|l| l.trim() == "\u{25a1}"),
        "empty unchecked task -> checkbox glyph:\n{task}"
    );
}

fn rows_with_sources(src: &str, width: usize) -> Vec<(String, Option<usize>)> {
    let theme = theme_now();
    let mut hl = plain_highlighter();
    render_rows(src, width, &theme, &mut hl)
        .iter()
        .map(|r| {
            let text: String = r.line.spans.iter().map(|s| s.text.as_str()).collect();
            (text, r.source)
        })
        .collect()
}

#[test]
fn every_list_item_carries_its_source_line() {
    let rows = rows_with_sources("- a\n- b\n- c", 40);
    let sources: Vec<Option<usize>> = rows.iter().map(|(_, s)| *s).collect();
    assert_eq!(sources, vec![Some(1), Some(2), Some(3)], "{rows:?}");
}

#[test]
fn loose_and_nested_list_items_carry_source_lines() {
    // 1: "1. one", 2: blank, 3: "2. two", 4: nested "- sub"
    let rows = rows_with_sources("1. one\n\n2. two\n   - sub", 40);
    for expect in [1, 2, 3, 4] {
        assert!(
            rows.iter().any(|(_, s)| *s == Some(expect)),
            "line {expect} should label a row: {rows:?}"
        );
    }
}

#[test]
fn table_rows_carry_source_lines_but_borders_do_not() {
    // 1: header, 2: delimiter, 3-4: data rows.
    let src = "| A | B |\n| - | - |\n| 1 | 2 |\n| 3 | 4 |";
    let rows = rows_with_sources(src, 40);
    let sources: Vec<Option<usize>> = rows.iter().map(|(_, s)| *s).collect();
    assert_eq!(
        sources,
        vec![None, Some(1), Some(2), Some(3), Some(4), None],
        "top border, header, separator, two data rows, bottom border: {rows:?}"
    );
}

#[test]
fn wrapped_paragraph_labels_only_its_first_row() {
    let rows = rows_with_sources("one two three four five six seven eight nine ten", 12);
    assert!(rows.len() > 1, "paragraph should wrap: {rows:?}");
    assert_eq!(rows[0].1, Some(1));
    assert!(
        rows[1..].iter().all(|(_, s)| s.is_none()),
        "continuation rows stay unlabeled: {rows:?}"
    );
}

#[test]
fn code_block_rows_label_every_literal_line() {
    // 1: fence, 2-3: literal lines, 4: fence.
    let rows = rows_with_sources("```rust\nlet a = 1;\nlet b = 2;\n```", 40);
    let sources: Vec<Option<usize>> = rows.iter().map(|(_, s)| *s).collect();
    assert_eq!(sources, vec![Some(2), Some(3)], "{rows:?}");
}

#[test]
fn hard_wrapped_code_labels_only_the_row_starting_the_line() {
    // Line 2 is 20 columns and hard-wraps at width 10 into two rows.
    let rows = rows_with_sources("```\naaaaaaaaaaaaaaaaaaaa\nbb\n```", 10);
    let sources: Vec<Option<usize>> = rows.iter().map(|(_, s)| *s).collect();
    assert_eq!(sources, vec![Some(2), None, Some(3)], "{rows:?}");
}

fn joined(theme: &MarkdownTheme) -> bool {
    let mut hl = plain_highlighter();
    render("first line\nsecond line", 40, theme, &mut hl)
        .iter()
        .map(|l| l.spans.iter().map(|s| s.text.as_str()).collect::<String>())
        .any(|row| row.contains("first line") && row.contains("second line"))
}

#[test]
fn soft_break_mode_controls_line_breaks() {
    assert!(joined(&theme_now()), "default should reflow");
    let hard = MarkdownTheme {
        hard_breaks: true,
        ..theme_now()
    };
    assert!(
        !joined(&hard),
        "hard_breaks should split onto separate rows"
    );
}


#[test]
fn assigns_a_style_to_every_byte() {
    let theme = theme_now();
    let src = "# Heading\n\nA **bold** word and `code` and a [link](http://x).\n";
    let styles = highlight(src, &theme);
    assert_eq!(
        styles.len(),
        src.len(),
        "must be lossless: one style per byte"
    );
}

#[test]
fn heading_hash_is_a_marker_and_text_is_heading_styled() {
    let theme = theme_now();
    let src = "## Title";
    let styles = highlight(src, &theme);
    assert_eq!(styles[0], theme.marker); // '#'
    assert_eq!(styles[1], theme.marker); // '#'
    assert_eq!(styles[3], theme.heading(2)); // 'T'
}

#[test]
fn emphasis_markers_use_marker_style() {
    let theme = theme_now();
    let src = "a **b** c";
    let styles = highlight(src, &theme);
    let stars: Vec<usize> = src.match_indices('*').map(|(i, _)| i).collect();
    for i in stars {
        assert_eq!(styles[i], theme.marker, "star at {i} should be a marker");
    }
}

#[test]
fn keywords_are_highlighted_losslessly() {
    let theme = theme_now();
    let src = "TODO and ERROR";
    let styles = highlight(src, &theme);
    assert_eq!(styles.len(), src.len());
    assert_eq!(styles[0], theme.keyword_note);
    assert_eq!(styles[9], theme.keyword_error);
}

#[test]
fn intraword_underscore_stays_literal() {
    let theme = theme_now();
    let src = "foo_bar_baz";
    let styles = highlight(src, &theme);
    for (i, b) in src.bytes().enumerate() {
        if b == b'_' {
            assert_ne!(
                styles[i], theme.marker,
                "underscore at {i} should be literal"
            );
        }
    }
}

#[test]
fn flanked_underscore_is_emphasis() {
    let theme = theme_now();
    let src = "a _x_ b";
    let styles = highlight(src, &theme);
    for (i, b) in src.bytes().enumerate() {
        if b == b'_' {
            assert_eq!(
                styles[i], theme.marker,
                "underscore at {i} should be a marker"
            );
        }
    }
}

#[test]
fn fenced_code_interiors_are_not_scanned_as_markdown() {
    let theme = theme_now();
    let src = "```py\na = b * c\n# comment\n```\nafter *em*\n";
    let styles = highlight(src, &theme);
    assert_eq!(styles.len(), src.len());
    // `*` inside the fence is code, not an emphasis marker.
    let star = src.find('*').unwrap();
    assert_eq!(styles[star], theme.code_inline);
    // `#` inside the fence is code, not a heading.
    let hash = src.find('#').unwrap();
    assert_eq!(styles[hash], theme.code_inline);
    // After the closing fence, markdown scanning resumes.
    let em_star = src.rfind('*').unwrap();
    assert_eq!(styles[em_star], theme.marker);
}

#[test]
fn unclosed_fence_runs_to_the_end() {
    let theme = theme_now();
    let src = "```\n**not bold**";
    let styles = highlight(src, &theme);
    let star = src.find('*').unwrap();
    assert_eq!(styles[star], theme.code_inline);
}

#[test]
fn link_url_with_balanced_parens_is_dimmed_whole() {
    let theme = theme_now();
    let src = "[x](http://e.com/a_(b))";
    let styles = highlight(src, &theme);
    // The entire "(...)" target, including the inner ')', is dimmed as a
    // marker rather than being truncated at the first ')'.
    let open = src.find('(').unwrap();
    for (i, style) in styles.iter().enumerate().skip(open) {
        assert_eq!(*style, theme.marker, "url byte {i} should be a marker");
    }
}


#[test]
fn mix_blends_channels() {
    assert_eq!(mix(0x000000, 0xffffff, 1, 2), 0x808080);
    assert_eq!(mix(0x102030, 0x102030, 7, 10), 0x102030);
    assert_eq!(mix(0xff0000, 0x00ff00, 0, 1), 0xff0000);
    assert_eq!(mix(0xff0000, 0x00ff00, 1, 1), 0x00ff00);
}

#[test]
fn heading_ladder_keeps_accents_and_quiet_levels() {
    let h = heading_ladder(0x61afef, 0xc678dd, 0x56b6c2, 0xabb2bf, 0x828997, 0x5c6370);
    assert_eq!(h[0], 0x61afef, "H1 keeps the primary accent");
    assert_eq!(h[1], 0xc678dd, "H2 keeps the secondary accent");
    assert_eq!(h[2], 0x56b6c2, "H3 keeps the tertiary accent");
    assert_eq!(h[3], 0xabb2bf, "H4 returns to body text");
    assert_eq!(h[5], 0x5c6370, "H6 recedes into chrome");
    let distinct: std::collections::HashSet<_> = h.iter().collect();
    assert_eq!(distinct.len(), 6, "all six levels are distinct: {h:x?}");
}

#[test]
fn no_theme_underlines_its_headings() {
    for name in ThemeName::all() {
        for variant in [ThemeVariant::Dark, ThemeVariant::Light] {
            let t = MarkdownTheme::named(name, variant, true);
            assert!(
                !t.headings.h1.underlined,
                "{name:?}/{variant:?}: H1 should not be underlined"
            );
        }
    }
}

#[test]
fn overrides_extended_theme_keys() {
    let mut theme = theme_now();
    let overrides = vec![
        ("quote_bar".to_string(), "#112233".to_string()),
        ("table_border".to_string(), "#445566".to_string()),
        ("task_todo".to_string(), "#778899".to_string()),
        ("code_background".to_string(), "#010203".to_string()),
        ("background".to_string(), "#020406".to_string()),
        ("keyword_warn".to_string(), "#abcdef".to_string()),
    ];

    theme.apply_overrides(&overrides, true);

    assert_eq!(theme.quote_bar.fg, parse_hex("#112233", true));
    assert_eq!(theme.table_border.fg, parse_hex("#445566", true));
    assert_eq!(theme.task_todo.fg, parse_hex("#778899", true));
    assert_eq!(theme.code_inline.bg, parse_hex("#010203", true));
    assert_eq!(Some(theme.background), parse_hex("#020406", true));
    assert_eq!(theme.keyword_warn.fg, parse_hex("#abcdef", true));
}

#[test]
fn light_variant_uses_dark_body_text() {
    let theme = MarkdownTheme::named(ThemeName::Marqi, ThemeVariant::Light, true);
    assert_eq!(Some(theme.background), Some(Color::Indexed(255)));
    assert_eq!(theme.text.fg, parse_hex("#1f2937", true));
}

#[test]
fn colorfgbg_hint_detects_terminal_variant() {
    assert_eq!(variant_from_colorfgbg("15;0"), Some(ThemeVariant::Dark));
    assert_eq!(variant_from_colorfgbg("0;15"), Some(ThemeVariant::Light));
    assert_eq!(variant_from_colorfgbg("0;255"), Some(ThemeVariant::Light));
}

const ALL: [ThemeName; 9] = [
    ThemeName::Marqi,
    ThemeName::OneDark,
    ThemeName::Github,
    ThemeName::Catppuccin,
    ThemeName::TokyoNight,
    ThemeName::Gruvbox,
    ThemeName::Nord,
    ThemeName::Dracula,
    ThemeName::Solarized,
];

#[test]
fn theme_names_and_aliases_resolve() {
    for (alias, expected) in [
        ("marqi", ThemeName::Marqi),
        ("One Dark", ThemeName::OneDark),
        ("onedark", ThemeName::OneDark),
        ("one-light", ThemeName::OneDark),
        ("GitHub", ThemeName::Github),
        ("github-dark", ThemeName::Github),
        ("catppuccin", ThemeName::Catppuccin),
        ("Catppuccin Mocha", ThemeName::Catppuccin),
        ("latte", ThemeName::Catppuccin),
        ("tokyo-night", ThemeName::TokyoNight),
        ("tokyonight_day", ThemeName::TokyoNight),
        ("gruvbox", ThemeName::Gruvbox),
        ("Gruvbox Light", ThemeName::Gruvbox),
        ("nord", ThemeName::Nord),
        ("dracula", ThemeName::Dracula),
        ("alucard", ThemeName::Dracula),
        ("solarized", ThemeName::Solarized),
    ] {
        assert_eq!(theme_from_name(alias), Some(expected), "alias {alias:?}");
    }
    assert_eq!(theme_from_name(""), None);
    assert_eq!(theme_from_name("default"), None);
    assert_eq!(theme_from_name("no-such-theme"), None);
}

#[test]
fn unset_name_defaults_to_the_most_popular_face_per_mode() {
    let dark = MarkdownTheme::select("", "dark", ThemeVariant::Dark, true);
    assert_eq!(dark.name, ThemeName::OneDark);
    assert_eq!(dark.background, rgb(0x28, 0x2c, 0x34, true));

    let light = MarkdownTheme::select("default", "light", ThemeVariant::Dark, true);
    assert_eq!(light.name, ThemeName::Github);
    assert_eq!(light.background, rgb(0xff, 0xff, 0xff, true));

    // The mode words in a family name never override `variant`.
    let day = MarkdownTheme::select("tokyonight_night", "light", ThemeVariant::Dark, true);
    assert_eq!(day.name, ThemeName::TokyoNight);
    assert_eq!(day.variant, ThemeVariant::Light);
    assert_eq!(day.background, rgb(0xe1, 0xe2, 0xe7, true));
}

#[test]
fn every_face_is_usable() {
    for name in ALL {
        for variant in [ThemeVariant::Dark, ThemeVariant::Light] {
            let theme = MarkdownTheme::named(name, variant, true);
            assert_eq!(theme.name, name);
            assert_eq!(theme.variant, variant);
            assert_ne!(
                theme.text.fg,
                Some(theme.background),
                "{name:?}/{variant:?}: text must not vanish into the canvas"
            );
            assert_ne!(
                Some(theme.background),
                theme.code_inline.bg,
                "{name:?}/{variant:?}: inline code needs an offset surface"
            );
            assert!(
                !theme.default_syntax_theme().is_empty(),
                "{name:?}/{variant:?}: every face pairs a syntect theme"
            );
            // Every heading level is bold; colour choice is exercised in
            // `heading_ladder_*`, independent of terminal colour depth.
            assert!(
                (1..=6).all(|level| theme.heading(level).bold),
                "{name:?}/{variant:?}: headings must be bold"
            );
        }
    }
}

#[test]
fn a_nested_hole_is_found_where_it_landed() {
    let source = "- one\n\n  > first\n\n- two\n\n  > second\n";
    let nodes = parse(source);
    let list = nodes.iter().position(|n| n.depth == 2).unwrap();
    let raw = Line::of(Span::raw("RAW".to_string()));
    let mut active = ActiveLeaf::new((6, 6), vec![raw]);
    let (rows, at) = render_block_with_hole(
        &nodes,
        list,
        nodes.len(),
        40,
        &theme_now(),
        &mut plain_highlighter(),
        &mut active,
    );
    let at = at.expect("the quote of the second item is the hole");
    assert!(line_text(&rows[at].line).contains("RAW"), "row {at}");
    assert!(at > 3, "below the first item");
}

#[test]
fn a_line_that_cannot_be_read_is_shown_plain() {
    let hl = plain_highlighter();
    let rows = hl.panel_rows(&vec![Err("let x\n".to_string()), Ok(Vec::new())], 8);
    assert_eq!(line_text(&rows[0].line), "let x   ");
    assert_eq!(rows[0].source, Some(0));
    assert_eq!(line_text(&rows[1].line), "        ");
}

#[test]
fn an_unknown_language_is_plain_text() {
    let mut hl = plain_highlighter();
    let unknown = hl.highlight("no-such-language", "fn main() {}\n", 20);
    let plain = hl.highlight("txt", "fn main() {}\n", 20);
    assert_eq!(line_text(&unknown[0].line), line_text(&plain[0].line));
    assert_eq!(unknown[0].line.spans.len(), plain[0].line.spans.len());
}

/// A theme in which all code has one colour.
fn one_colour_theme() -> Vec<u8> {
    br#"<?xml version="1.0" encoding="UTF-8"?>
<plist version="1.0">
<dict>
  <key>name</key><string>One colour</string>
  <key>settings</key>
  <array>
    <dict>
      <key>settings</key>
      <dict>
        <key>background</key><string>#102030</string>
        <key>foreground</key><string>#AABBCC</string>
      </dict>
    </dict>
  </array>
</dict>
</plist>
"#
    .to_vec()
}

#[test]
fn a_bundled_theme_that_reads_is_used() {
    let mut hl = CodeHighlighter::new(Some("dracula"), one_colour_theme(), true);
    let rows = hl.highlight("rust", "let x = 1;\n", 40);
    for span in &rows[0].line.spans {
        assert_eq!(span.style.bg, Some(Color::Rgb(0x10, 0x20, 0x30)));
    }
    let code: Vec<&Span> = rows[0]
        .line
        .spans
        .iter()
        .filter(|s| !s.text.trim().is_empty())
        .collect();
    assert!(!code.is_empty());
    for span in code {
        assert_eq!(span.style.fg, Some(Color::Rgb(0xAA, 0xBB, 0xCC)));
    }
}

#[test]
fn a_bundled_theme_that_does_not_read_gives_way_to_a_default() {
    let shown = |name: Option<&str>, text: &[u8]| {
        let mut hl = CodeHighlighter::new(name, text.to_vec(), true);
        let rows = hl.highlight("rust", "let x = 1;\n", 40);
        rows[0]
            .line
            .spans
            .iter()
            .map(|s| (s.text.clone(), s.style))
            .collect::<Vec<_>>()
    };
    let fallback = shown(None, b"");
    assert_eq!(shown(Some("dracula"), b"no theme"), fallback);
    assert_eq!(shown(Some("dracula"), b""), fallback);
    // The text of a theme counts only where the name is that of a bundled one.
    assert_ne!(shown(Some("dracula"), &one_colour_theme()), fallback);
    assert_eq!(shown(Some("nothing"), &one_colour_theme()), fallback);
    let light = shown(Some("InspiredGitHub"), b"");
    assert_eq!(shown(Some("InspiredGitHub"), &one_colour_theme()), light);
    assert_ne!(light, fallback);
}

#[test]
fn every_extension_of_github_flavored_markdown_is_on() {
    assert_eq!(
        gfm_options(),
        Extensions {
            strikethrough: true,
            table: true,
            tasklist: true,
            autolink: true,
            footnotes: true,
        }
    );
    let plain = render_plain("| a | b |\n| - | - |\n| 1 | 2 |\n", 40);
    assert!(!plain.contains("| - |"), "{plain}");
    assert!(!render_plain("~~old~~", 40).contains('~'));
    assert!(!render_plain("- [ ] task", 40).contains("[ ]"));
}

#[test]
fn the_chosen_palette_entry_is_the_closest() {
    let level = |i: usize| [0i32, 95, 135, 175, 215, 255][i];
    let entry = |i: usize| {
        if i < 232 {
            let n = i - 16;
            (level(n / 36), level(n / 6 % 6), level(n % 6))
        } else {
            let gray = 8 + 10 * (i as i32 - 232);
            (gray, gray, gray)
        }
    };
    let distance = |a: (i32, i32, i32), b: (i32, i32, i32)| {
        (a.0 - b.0).pow(2) + (a.1 - b.1).pow(2) + (a.2 - b.2).pow(2)
    };
    for r in (0..=255).step_by(17) {
        for g in (0..=255).step_by(15) {
            for b in (0..=255).step_by(5) {
                let c = (i32::from(r), i32::from(g), i32::from(b));
                let chosen = usize::from(rgb_to_ansi256(r, g, b));
                let best = (16..256).map(|i| distance(entry(i), c)).min().unwrap();
                assert_eq!(distance(entry(chosen), c), best, "{c:?}");
            }
        }
    }
}

#[test]
fn shown_theme_names_select_their_family() {
    for name in ThemeName::all() {
        assert_eq!(theme_from_name(name.label()), Some(name));
    }
}
