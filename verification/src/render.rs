//! Rendering a document to plain text or to HTML, without the editor.

use comrak::{markdown_to_html, Options};
use vstd::prelude::*;

use crate::app::{chosen_theme, configured_theme};
use crate::cli::{printable, printed};
use crate::config::{Config, ConfigView};
use crate::markdown::ast::{gfm_options, parsed, Extensions};
use crate::markdown::flow::{line_text, text_of};
use crate::markdown::highlight::{CodeHighlighter, CodeLook};
use crate::markdown::preview::{document, plain_scene, render, RowView};
use crate::markdown::theme::{MarkdownTheme, ThemeVariant};
use crate::strings::views;
use crate::style::{line_views, Line, SpanView};

verus! {

/// A document as HTML, with the extensions that are read.
pub uninterp spec fn html(
    source: Seq<char>,
    strikethrough: bool,
    table: bool,
    tasklist: bool,
    autolink: bool,
    footnotes: bool,
) -> Seq<char>;

/// `comrak::markdown_to_html` with the given extensions writes a document as HTML, which
/// depends on the source and on the extensions.
#[verifier::external_body]
fn document_html(source: &str, o: Extensions) -> (out: String)
    ensures
        out@ == html(source@, o.strikethrough, o.table, o.tasklist, o.autolink, o.footnotes),
{
    let mut opts = Options::default();
    let e = &mut opts.extension;
    (e.strikethrough, e.table, e.tasklist) = (o.strikethrough, o.table, o.tasklist);
    (e.autolink, e.footnotes) = (o.autolink, o.footnotes);
    markdown_to_html(source, &opts)
}

/// A document as HTML, read as GitHub Flavored Markdown.
pub fn render_html(source: &str) -> (out: String)
    ensures
        out@ == html(source@, true, true, true, true, true),
{
    document_html(source, gfm_options())
}

/// The name of the code theme that a configuration selects: the one that it names, or the
/// one that goes with its theme.
pub open spec fn code_theme(c: ConfigView, theme: MarkdownTheme) -> Seq<char> {
    match c.theme.syntax {
        Some(name) => name,
        None => theme.syntax_theme_text(),
    }
}

/// The name of the code theme that a configuration selects.
pub fn chosen_code_theme(config: &Config, theme: &MarkdownTheme) -> (name: String)
    ensures
        name@ == code_theme(config@, *theme),
{
    match &config.theme.syntax {
        Some(name) => name.clone(),
        None => theme.default_syntax_theme().to_owned(),
    }
}

/// The text of a line, as it is written to a terminal or a file.
pub open spec fn plain_line(line: Seq<SpanView>) -> Seq<char> {
    text_of(line).map_values(|c: char| printed(c))
}

/// The lines of a document in a theme and a look of code, as plain text.
pub open spec fn plain_rows(
    source: Seq<char>,
    width: usize,
    theme: MarkdownTheme,
    look: CodeLook,
) -> Seq<Seq<char>> {
    document(plain_scene(theme, look), parsed(source), width).map_values(
        |row: RowView| plain_line(row.line),
    )
}

/// The texts of lines, as they are written to a terminal or a file.
fn plain_lines(lines: &Vec<Line>) -> (out: Vec<String>)
    ensures
        views(out@) == line_views(lines@).map_values(|line: Seq<SpanView>| plain_line(line)),
{
    let ghost shown = line_views(lines@);
    let mut out: Vec<String> = Vec::new();
    let mut i: usize = 0;
    let count: usize = lines.len();
    while i < count
        invariant
            i <= count,
            count == lines@.len(),
            shown == line_views(lines@),
            out@.len() == i,
            forall|k: int| 0 <= k < i ==> (#[trigger] out@[k])@ == plain_line(shown[k]),
        decreases count - i,
    {
        let text = line_text(&lines[i]);
        assert(shown[i as int] == lines@[i as int]@);
        out.push(printable(text.as_str()));
        i += 1;
    }
    assert(views(out@) =~= shown.map_values(|line: Seq<SpanView>| plain_line(line)));
    out
}

/// The plain lines of rows, taken by their lines.
proof fn lemma_rows_to_lines(rows: Seq<RowView>)
    ensures
        rows.map_values(|r: RowView| r.line).map_values(|line: Seq<SpanView>| plain_line(line))
            == rows.map_values(|row: RowView| plain_line(row.line)),
{
    assert(rows.map_values(|r: RowView| r.line).map_values(
        |line: Seq<SpanView>| plain_line(line),
    ) =~= rows.map_values(|row: RowView| plain_line(row.line)));
}

/// A document rendered in a theme, with a highlighter for its code, as lines of plain text.
pub fn render_plain_in(
    source: &str,
    width: usize,
    theme: &MarkdownTheme,
    highlighter: &mut CodeHighlighter,
) -> (out: Vec<String>)
    requires
        old(highlighter).wf(),
    ensures
        final(highlighter).wf(),
        final(highlighter).look() == old(highlighter).look(),
        views(out@) == plain_rows(source@, width, *theme, old(highlighter).look()),
{
    let ghost look = highlighter.look();
    let lines = render(source, width, theme, highlighter);
    proof {
        lemma_rows_to_lines(document(plain_scene(*theme, look), parsed(source@), width));
    }
    plain_lines(&lines)
}

/// A document rendered for `width` columns as a configuration says, as lines of plain text
/// with no control character but the tab. `bundled` is the text of the code theme that is
/// selected, where it is one of the bundled ones.
pub fn render_plain(
    source: &str,
    width: usize,
    config: &Config,
    detected: ThemeVariant,
    truecolor: bool,
    bundled: Vec<u8>,
) -> (out: Vec<String>)
    ensures
        ({
            let theme = configured_theme(config@, detected, truecolor);
            let look = CodeLook::chosen(
                Some(code_theme(config@, theme)),
                bundled@,
                truecolor,
            );
            views(out@) == plain_rows(source@, width, theme, look)
        }),
{
    let theme = chosen_theme(config, detected, truecolor);
    let name = chosen_code_theme(config, &theme);
    let mut highlighter = CodeHighlighter::new(Some(name.as_str()), bundled, truecolor);
    render_plain_in(source, width, &theme, &mut highlighter)
}

} // verus!
