//! Rendering documents without the editor.

use marqi::config::Config;
use marqi::markdown::theme::ThemeVariant;
use marqi::render::{render_html, render_plain};

fn plain(source: &str, width: usize, config: &Config) -> Vec<String> {
    render_plain(source, width, config, ThemeVariant::Dark, true, Vec::new())
}

#[test]
fn a_document_becomes_html() {
    assert_eq!(
        render_html("# Title\n\n~~old~~\n"),
        "<h1>Title</h1>\n<p><del>old</del></p>\n"
    );
}

#[test]
fn a_document_becomes_plain_lines() {
    let lines = plain("# Title\n\none *two*\x07\n", 40, &Config::default());
    assert_eq!(lines[0].trim(), "\u{25c6} Title");
    assert_eq!(lines.last().unwrap(), "one two\u{fffd}");
}

#[test]
fn headings_and_breaks_follow_the_configuration() {
    let mut config = Config::default();
    config.editor.heading_glyphs = false;
    config.editor.soft_break = "break".to_owned();
    let lines = plain("# Title\n\na\nb\n", 40, &config);
    assert_eq!(lines[0].trim(), "Title");
    assert_eq!(lines[lines.len() - 2..], ["a", "b"]);
}

#[test]
fn extensions_reach_the_html() {
    let html = render_html(
        "| a |\n| - |\n| 1 |\n\n- [x] done\n\nsee https://example.com and a note[^n]\n\n[^n]: its text\n",
    );
    for part in [
        "<table>",
        "type=\"checkbox\"",
        "href=\"https://example.com\"",
        "footnote",
    ] {
        assert!(html.contains(part), "{part} in {html}");
    }
}
