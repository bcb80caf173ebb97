//! Fenced-code-block syntax highlighting.
//!
//! Each code line is highlighted, hard-wrapped to the available width, and padded so the
//! block reads as a solid panel.

use std::io::Cursor;

use syntect::easy::HighlightLines;
use syntect::highlighting::ThemeSet;
use syntect::parsing::SyntaxSet;
use syntect::util::LinesWithEndings;
use vstd::prelude::*;

use crate::block_cache::{BlockCache, BlockMemory};
use crate::color::{adapted, rgb, Color};
use crate::markdown::flow::{merge_spans, merged};
use crate::markdown::preview::{append_rows, row_views, Row, RowView};
use crate::strings::{from_chars, repeat_char, repeated, same, to_chars, views};
use crate::style::{shown, span_views, Line, Span, SpanView, Style};
use crate::text::{cluster_texts, columns, graphemes, width};

verus! {

/// Drop the highlight cache once it grows past this many distinct code blocks.
pub const CACHE_LIMIT: usize = 2048;

/// The theme that code is shown in where no other is known.
pub const FALLBACK_THEME: &'static str = "base16-ocean.dark";

/// The language that code is read in where its own is not known.
pub const PLAIN_TEXT: &'static str = "Plain Text";

/// A piece of highlighted code.
pub struct Piece {
    pub r: u8,
    pub g: u8,
    pub b: u8,
    /// 1 for bold, 2 for underlined and 4 for italic, added up.
    pub font: u8,
    pub text: String,
}

/// What a [`Piece`] is.
pub struct PieceView {
    pub r: u8,
    pub g: u8,
    pub b: u8,
    pub font: u8,
    pub text: Seq<char>,
}

impl View for Piece {
    type V = PieceView;

    open spec fn view(&self) -> PieceView {
        PieceView {
            r: self.r,
            g: self.g,
            b: self.b,
            font: self.font,
            text: self.text@,
        }
    }
}

/// What came of highlighting a line: its pieces, or the line where it could not be read.
pub type Reading = Result<Vec<Piece>, String>;

/// What a [`Reading`] says.
pub type ReadingView = Result<Seq<PieceView>, Seq<char>>;

/// The pieces of some code.
pub open spec fn piece_views(pieces: Seq<Piece>) -> Seq<PieceView> {
    pieces.map_values(|p: Piece| p@)
}

/// What came of highlighting each line.
pub open spec fn reading_views(lines: Seq<Reading>) -> Seq<ReadingView> {
    lines.map_values(
        |r: Reading|
            match r {
                Ok(pieces) => Ok(piece_views(pieces@)),
                Err(line) => Err(line@),
            },
    )
}

/// The one piece of a line that could not be read: black on nothing.
pub open spec fn unread(line: Seq<char>) -> PieceView {
    PieceView { r: 0, g: 0, b: 0, font: 0, text: line }
}

/// The pieces that a line is shown in; one that could not be read is never dropped.
pub open spec fn shown_pieces(r: ReadingView) -> Seq<PieceView> {
    match r {
        Ok(pieces) => pieces,
        Err(line) => seq![unread(line)],
    }
}

/// The pieces that each line is shown in.
pub open spec fn shown_lines(lines: Seq<ReadingView>) -> Seq<Seq<PieceView>> {
    lines.map_values(|r: ReadingView| shown_pieces(r))
}

/// What comes of highlighting code by the syntax that `token` finds, if any: in the bundled
/// theme that is held, or else in the default theme of a name.
pub open spec fn token_lines(
    theme: Seq<char>,
    source: Option<Seq<u8>>,
    token: Seq<char>,
    code: Seq<char>,
) -> Option<Seq<ReadingView>> {
    match source {
        Some(s) => source_pieces(s, token, code),
        None => default_pieces(theme, token, code),
    }
}

/// What came of highlighting code for a language, as plain text where the language is
/// unknown.
pub open spec fn read_code(
    theme: Seq<char>,
    source: Option<Seq<u8>>,
    lang: Seq<char>,
    code: Seq<char>,
) -> Seq<ReadingView> {
    match token_lines(theme, source, lang, code) {
        Some(lines) => lines,
        None => match token_lines(theme, source, PLAIN_TEXT@, code) {
            Some(lines) => lines,
            None => Seq::empty(),
        },
    }
}

/// Whether a name is one of the highlighter's default themes.
pub open spec fn default_theme(name: Seq<char>) -> bool {
    ||| name == "base16-ocean.dark"@
    ||| name == "base16-eighties.dark"@
    ||| name == "base16-mocha.dark"@
    ||| name == "base16-ocean.light"@
    ||| name == "InspiredGitHub"@
    ||| name == "Solarized (dark)"@
    ||| name == "Solarized (light)"@
}

/// Whether a text is that of a theme.
pub uninterp spec fn theme_reads(source: Seq<u8>) -> bool;

/// The background of the theme that a text holds.
pub uninterp spec fn source_background(source: Seq<u8>) -> Option<(u8, u8, u8)>;

/// The background of a default theme.
pub uninterp spec fn default_background(theme: Seq<char>) -> Option<(u8, u8, u8)>;

/// What comes of highlighting each line of `code` by the syntax that `token` finds, if any,
/// in the theme that `source` holds.
pub uninterp spec fn source_pieces(source: Seq<u8>, token: Seq<char>, code: Seq<char>) -> Option<
    Seq<Result<Seq<PieceView>, Seq<char>>>,
>;

/// What comes of highlighting each line of `code` by the syntax that `token` finds, if any,
/// in a default theme.
pub uninterp spec fn default_pieces(theme: Seq<char>, token: Seq<char>, code: Seq<char>) -> Option<
    Seq<Result<Seq<PieceView>, Seq<char>>>,
>;

/// `syntect::highlighting::ThemeSet::load_defaults` holds the themes under the seven names
/// that its documentation lists.
#[verifier::external_body]
fn is_default_theme(name: &str) -> (yes: bool)
    ensures
        yes == default_theme(name@),
{
    ThemeSet::load_defaults().themes.contains_key(name)
}

/// `syntect::highlighting::ThemeSet::load_from_reader` reads a theme from a text, or fails
/// on it. Which depends on the text alone.
#[verifier::external_body]
fn reads_theme(source: &[u8]) -> (yes: bool)
    ensures
        yes == theme_reads(source@),
{
    ThemeSet::load_from_reader(&mut Cursor::new(source)).is_ok()
}

/// The settings of the theme that `syntect::highlighting::ThemeSet::load_from_reader` reads
/// from a text name a background or none. Which depends on the text alone.
#[verifier::external_body]
fn background_in(source: &[u8]) -> (color: Option<(u8, u8, u8)>)
    requires
        theme_reads(source@),
    ensures
        color == source_background(source@),
{
    let held = ThemeSet::load_from_reader(&mut Cursor::new(source)).unwrap();
    held.settings.background.map(|c| (c.r, c.g, c.b))
}

/// The settings of a theme of `syntect::highlighting::ThemeSet::load_defaults` name a
/// background or none. Which depends on the theme's name alone.
#[verifier::external_body]
fn background_by_name(theme: &str) -> (color: Option<(u8, u8, u8)>)
    requires
        default_theme(theme@),
    ensures
        color == default_background(theme@),
{
    let held = ThemeSet::load_defaults().themes.remove(theme).unwrap();
    held.settings.background.map(|c| (c.r, c.g, c.b))
}

/// `syntect::easy::HighlightLines::highlight_line` cuts each line of `code` into styled
/// pieces, by the syntax that the token finds, in the theme that the text holds, or fails on
/// it; nothing comes of a token that finds no syntax. What comes of it depends on the text,
/// the token and the code alone.
#[verifier::external_body]
fn pieces_in(source: &[u8], token: &str, code: &str) -> (lines: Option<Vec<Reading>>)
    requires
        theme_reads(source@),
    ensures
        match lines {
            Some(l) => source_pieces(source@, token@, code@) == Some(reading_views(l@)),
            None => source_pieces(source@, token@, code@) is None,
        },
{
    let held = ThemeSet::load_from_reader(&mut Cursor::new(source)).unwrap();
    let set = SyntaxSet::load_defaults_newlines();
    let mut h = HighlightLines::new(set.find_syntax_by_token(token)?, &held);
    Some(LinesWithEndings::from(code).map(|line| h.highlight_line(line, &set)
        .map(|pieces| pieces.into_iter().map(|(s, t)| Piece {
            r: s.foreground.r, g: s.foreground.g, b: s.foreground.b,
            font: s.font_style.bits(), text: t.to_string() }).collect())
        .map_err(|_| line.to_string())).collect())
}

/// `syntect::easy::HighlightLines::highlight_line` cuts each line of `code` into styled
/// pieces, by the syntax that the token finds, in a theme of
/// `syntect::highlighting::ThemeSet::load_defaults`, or fails on it; nothing comes of a token
/// that finds no syntax. What comes of it depends on the theme's name, the token and the
/// code alone.
#[verifier::external_body]
fn pieces_by_name(theme: &str, token: &str, code: &str) -> (lines: Option<Vec<Reading>>)
    requires
        default_theme(theme@),
    ensures
        match lines {
            Some(l) => default_pieces(theme@, token@, code@) == Some(reading_views(l@)),
            None => default_pieces(theme@, token@, code@) is None,
        },
{
    let held = ThemeSet::load_defaults().themes.remove(theme).unwrap();
    let set = SyntaxSet::load_defaults_newlines();
    let mut h = HighlightLines::new(set.find_syntax_by_token(token)?, &held);
    Some(LinesWithEndings::from(code).map(|line| h.highlight_line(line, &set)
        .map(|pieces| pieces.into_iter().map(|(s, t)| Piece {
            r: s.foreground.r, g: s.foreground.g, b: s.foreground.b,
            font: s.font_style.bits(), text: t.to_string() }).collect())
        .map_err(|_| line.to_string())).collect())
}

/// The file that a bundled theme is kept in.
pub open spec fn bundled_file(name: Seq<char>) -> Option<Seq<char>> {
    if name == "catppuccin-mocha"@ {
        Some("catppuccin-mocha.tmTheme"@)
    } else if name == "catppuccin-latte"@ {
        Some("catppuccin-latte.tmTheme"@)
    } else if name == "tokyonight-night"@ {
        Some("tokyonight-night.tmTheme"@)
    } else if name == "tokyonight-day"@ {
        Some("tokyonight-day.tmTheme"@)
    } else if name == "onehalf-dark"@ {
        Some("onehalf-dark.tmTheme"@)
    } else if name == "onehalf-light"@ {
        Some("onehalf-light.tmTheme"@)
    } else if name == "gruvbox-dark"@ {
        Some("gruvbox-dark.tmTheme"@)
    } else if name == "gruvbox-light"@ {
        Some("gruvbox-light.tmTheme"@)
    } else if name == "dracula"@ {
        Some("dracula.tmTheme"@)
    } else if name == "nord"@ {
        Some("nord.tmTheme"@)
    } else {
        None
    }
}

/// The file of the canonical `.tmTheme` bundled for a named palette family (see
/// `MarkdownTheme::default_syntax_theme`).
pub fn bundled_theme(name: &str) -> (file: Option<&'static str>)
    ensures
        match file {
            Some(f) => bundled_file(name@) == Some(f@),
            None => bundled_file(name@) is None,
        },
{
    if same(name, "catppuccin-mocha") {
        Some("catppuccin-mocha.tmTheme")
    } else if same(name, "catppuccin-latte") {
        Some("catppuccin-latte.tmTheme")
    } else if same(name, "tokyonight-night") {
        Some("tokyonight-night.tmTheme")
    } else if same(name, "tokyonight-day") {
        Some("tokyonight-day.tmTheme")
    } else if same(name, "onehalf-dark") {
        Some("onehalf-dark.tmTheme")
    } else if same(name, "onehalf-light") {
        Some("onehalf-light.tmTheme")
    } else if same(name, "gruvbox-dark") {
        Some("gruvbox-dark.tmTheme")
    } else if same(name, "gruvbox-light") {
        Some("gruvbox-light.tmTheme")
    } else if same(name, "dracula") {
        Some("dracula.tmTheme")
    } else if same(name, "nord") {
        Some("nord.tmTheme")
    } else {
        None
    }
}

/// What the look of code depends on.
#[verifier::ext_equal]
pub struct CodeLook {
    /// The default theme that code is shown in where no bundled one is held.
    pub theme: Seq<char>,
    /// The text of the bundled theme that code is shown in.
    pub source: Option<Seq<u8>>,
    pub bg: Color,
    pub truecolor: bool,
}

/// Text without the line endings at its end.
pub open spec fn without_ending(s: Seq<char>) -> Seq<char>
    decreases s.len(),
{
    if s.len() > 0 && (s.last() == '\n' || s.last() == '\r') {
        without_ending(s.drop_last())
    } else {
        s
    }
}

/// The style of a piece of code.
pub open spec fn piece_style(p: PieceView, look: CodeLook) -> Style {
    Style {
        fg: Some(adapted(p.r, p.g, p.b, look.truecolor)),
        bg: Some(look.bg),
        bold: p.font % 2 == 1,
        dim: false,
        italic: p.font / 4 % 2 == 1,
        underlined: p.font / 2 % 2 == 1,
        crossed_out: false,
    }
}

/// The clusters of a piece, each in the piece's style.
pub open spec fn piece_cells(p: PieceView, look: CodeLook) -> Seq<SpanView> {
    cluster_texts(without_ending(p.text)).map_values(
        |t: Seq<char>| shown(t, piece_style(p, look)),
    )
}

/// The clusters of a line of code.
pub open spec fn line_cells(pieces: Seq<PieceView>, look: CodeLook) -> Seq<SpanView>
    decreases pieces.len(),
{
    if pieces.len() == 0 {
        Seq::empty()
    } else {
        line_cells(pieces.drop_last(), look) + piece_cells(pieces.last(), look)
    }
}

/// A row of code: same-style runs joined, and padded to `width` with the code background.
pub open spec fn padded(cells: Seq<SpanView>, used: usize, width: usize, look: CodeLook) -> Seq<
    SpanView,
> {
    if used < width {
        merged(cells).push(shown(repeated(' ', width - used), Style::plain().with_bg(look.bg)))
    } else {
        merged(cells)
    }
}

/// The rows of a line of code while its clusters are placed.
#[verifier::ext_equal]
pub struct Coding {
    pub rows: Seq<RowView>,
    /// The cluster that the row being filled begins with.
    pub from: int,
    pub col: usize,
}

/// The row of the clusters from `from` to `to`; the first of a line carries its index.
pub open spec fn code_row(
    s: Coding,
    cells: Seq<SpanView>,
    to: int,
    width: usize,
    index: usize,
    look: CodeLook,
) -> RowView {
    RowView {
        line: padded(cells.subrange(s.from, to), s.col, width, look),
        source: if s.rows.len() == 0 {
            Some(index)
        } else {
            None
        },
    }
}

/// The rows after the first `n` clusters of a line: a cluster that would overflow a row
/// that is not empty begins the next.
pub open spec fn coding(
    cells: Seq<SpanView>,
    n: int,
    width: usize,
    index: usize,
    look: CodeLook,
) -> Coding
    decreases n,
{
    if n <= 0 {
        Coding { rows: Seq::empty(), from: 0, col: 0 }
    } else {
        let s = coding(cells, n - 1, width, index, look);
        let w = columns(cells[n - 1].text);
        if s.col.saturating_add(w) > width && n - 1 > s.from {
            Coding {
                rows: s.rows.push(code_row(s, cells, n - 1, width, index, look)),
                from: n - 1,
                col: w,
            }
        } else {
            Coding { rows: s.rows, from: s.from, col: s.col.saturating_add(w) }
        }
    }
}

/// The rows of a line of code.
pub open spec fn coded_line(
    cells: Seq<SpanView>,
    width: usize,
    index: usize,
    look: CodeLook,
) -> Seq<RowView> {
    let n = cells.len() as int;
    let s = coding(cells, n, width, index, look);
    s.rows.push(code_row(s, cells, n, width, index, look))
}

/// The rows of the first `n` lines of code.
pub open spec fn coded(lines: Seq<Seq<PieceView>>, n: int, width: usize, look: CodeLook) -> Seq<
    RowView,
>
    decreases n,
{
    if n <= 0 {
        Seq::empty()
    } else {
        coded(lines, n - 1, width, look) + coded_line(
            line_cells(lines[n - 1], look),
            width,
            (n - 1) as usize,
            look,
        )
    }
}

/// The rows of highlighted lines of code; one empty row where there are none.
pub open spec fn panel(lines: Seq<Seq<PieceView>>, width: usize, look: CodeLook) -> Seq<RowView> {
    let w: usize = if width < 1 {
        1
    } else {
        width
    };
    let rows = coded(lines, lines.len() as int, w, look);
    if rows.len() == 0 {
        seq![RowView { line: padded(Seq::empty(), 0, w, look), source: None }]
    } else {
        rows
    }
}

impl CodeLook {
    /// The rows of a block of code.
    pub open spec fn rows(self, lang: Seq<char>, code: Seq<char>, width: usize) -> Seq<RowView> {
        panel(shown_lines(read_code(self.theme, self.source, lang, code)), width, self)
    }

    /// The look that a theme's name and the text of a bundled theme select: the bundled
    /// theme where the name is that of one and its text can be read, else the default theme
    /// of that name, else the fallback.
    pub open spec fn chosen(name: Option<Seq<char>>, bundled: Seq<u8>, truecolor: bool) -> CodeLook {
        let theme = match name {
            Some(n) if default_theme(n) => n,
            _ => FALLBACK_THEME@,
        };
        let source = match name {
            Some(n) if bundled_file(n) is Some && theme_reads(bundled) => Some(bundled),
            _ => None,
        };
        let background = match source {
            Some(s) => source_background(s),
            None => default_background(theme),
        };
        CodeLook {
            theme,
            source,
            bg: match background {
                Some(c) => adapted(c.0, c.1, c.2, truecolor),
                None => Color::Indexed(235),
            },
            truecolor,
        }
    }
}

/// A remembered block of code.
struct Remembered {
    lang: String,
    code: String,
    width: usize,
    rows: Vec<Row>,
}

/// Highlights fenced code blocks, remembering what it has highlighted.
pub struct CodeHighlighter {
    theme: String,
    source: Option<Vec<u8>>,
    bg: Color,
    truecolor: bool,
    /// Memoised highlight results keyed by (lang, code, width). Highlighting is
    /// the costly part of re-rendering, so unchanged code blocks are reused.
    /// The full key is stored (not a hash) so a collision can never serve
    /// another block's rendering; memory stays bounded by [`CACHE_LIMIT`].
    cache: Vec<Remembered>,
    /// Rendered blocks, which show code as it is highlighted here.
    blocks: BlockCache,
}

impl CodeHighlighter {
    pub closed spec fn look(&self) -> CodeLook {
        CodeLook {
            theme: self.theme@,
            source: match self.source {
                Some(s) => Some(s@),
                None => None,
            },
            bg: self.bg,
            truecolor: self.truecolor,
        }
    }

    /// Every remembered block is what highlighting it again would give.
    pub closed spec fn wf(&self) -> bool {
        &&& default_theme(self.theme@)
        &&& self.source is Some ==> theme_reads(self.source->0@)
        &&& self.cache@.len() <= CACHE_LIMIT
        &&& forall|i: int|
            0 <= i < self.cache@.len() ==> row_views((#[trigger] self.cache@[i]).rows@)
                == self.look().rows(
                self.cache@[i].lang@,
                self.cache@[i].code@,
                self.cache@[i].width,
            )
        &&& self.blocks.wf(self.look())
    }

    /// The rendered blocks that are held.
    pub closed spec fn memory(&self) -> BlockMemory {
        self.blocks@
    }

    /// How many blocks were rendered for live views.
    pub fn block_renders(&self) -> (n: u64)
        ensures
            n == self.memory().renders,
    {
        self.blocks.renders()
    }

    /// Hand out the rendered blocks.
    pub(crate) fn take_blocks(&mut self) -> (blocks: BlockCache)
        requires
            old(self).wf(),
        ensures
            final(self).wf(),
            final(self).look() == old(self).look(),
            blocks@ == old(self).memory(),
            blocks.wf(old(self).look()),
    {
        let mut blocks = BlockCache::new();
        std::mem::swap(&mut blocks, &mut self.blocks);
        blocks
    }

    /// Keep rendered blocks.
    pub(crate) fn put_blocks(&mut self, blocks: BlockCache)
        requires
            old(self).wf(),
            blocks.wf(old(self).look()),
        ensures
            final(self).wf(),
            final(self).look() == old(self).look(),
            final(self).memory() == blocks@,
    {
        self.blocks = blocks;
    }

    /// Whether a code theme goes by this name.
    pub fn has_theme(name: &str) -> (known: bool)
        ensures
            known == (bundled_file(name@) is Some || default_theme(name@)),
    {
        bundled_theme(name).is_some() || is_default_theme(name)
    }

    /// Build a highlighter using the named theme, a bundled port (with its text) or one
    /// of the defaults, falling back to a sensible default when `name` is `None` or
    /// unknown, or the text cannot be read.
    pub fn new(name: Option<&str>, bundled: Vec<u8>, truecolor: bool) -> (h: Self)
        ensures
            h.wf(),
            h.memory() == (BlockMemory { held: Seq::empty(), renders: 0 }),
            h.look() == CodeLook::chosen(
                match name {
                    Some(n) => Some(n@),
                    None => None,
                },
                bundled@,
                truecolor,
            ),
    {
        let mut theme = FALLBACK_THEME.to_owned();
        let mut source: Option<Vec<u8>> = None;
        if let Some(n) = name {
            if is_default_theme(n) {
                theme = n.to_owned();
            }
            if bundled_theme(n).is_some() && reads_theme(bundled.as_slice()) {
                source = Some(bundled);
            }
        }
        let background = match &source {
            Some(s) => background_in(s.as_slice()),
            None => background_by_name(theme.as_str()),
        };
        let bg = match background {
            Some((r, g, b)) => rgb(r, g, b, truecolor),
            None => Color::Indexed(235),
        };
        let h = CodeHighlighter {
            theme,
            source,
            bg,
            truecolor,
            cache: Vec::new(),
            blocks: BlockCache::new(),
        };
        h
    }

    /// Highlight `code` (a fenced block's literal) for `lang`, producing styled
    /// rows at most `width` columns wide. Each row carries the 0-based literal
    /// line it begins; hard-wrapped continuation rows carry `None`. Results are
    /// memoised.
    pub fn highlight(&mut self, lang: &str, code: &str, width: usize) -> (rows: Vec<Row>)
        requires
            old(self).wf(),
        ensures
            final(self).wf(),
            final(self).look() == old(self).look(),
            row_views(rows@) == old(self).look().rows(lang@, code@, width),
    {
        let mut i: usize = 0;
        while i < self.cache.len()
            invariant
                i <= self.cache@.len(),
                self.wf(),
                *self == *old(self),
            decreases self.cache@.len() - i,
        {
            let entry = &self.cache[i];
            if entry.width == width && same(entry.lang.as_str(), lang) && same(
                entry.code.as_str(),
                code,
            ) {
                let mut rows: Vec<Row> = Vec::new();
                append_rows(&mut rows, &entry.rows);
                assert(row_views(rows@) =~= row_views(entry.rows@));
                return rows;
            }
            i += 1;
        }
        let rows = self.highlight_uncached(lang, code, width);
        let mut kept: Vec<Row> = Vec::new();
        append_rows(&mut kept, &rows);
        assert(row_views(kept@) =~= row_views(rows@));
        let ghost look = self.look();
        if self.cache.len() >= CACHE_LIMIT {
            self.cache.clear();
        }
        self.cache.push(
            Remembered { lang: lang.to_owned(), code: code.to_owned(), width, rows: kept },
        );
        assert(self.look() == look);
        rows
    }

    /// What comes of highlighting code by the syntax that a token finds, if any.
    fn token_lines(&self, token: &str, code: &str) -> (lines: Option<Vec<Reading>>)
        requires
            self.wf(),
        ensures
            match lines {
                Some(l) => token_lines(self.look().theme, self.look().source, token@, code@) == Some(
                    reading_views(l@),
                ),
                None => token_lines(self.look().theme, self.look().source, token@, code@) is None,
            },
    {
        match &self.source {
            Some(source) => pieces_in(source.as_slice(), token, code),
            None => pieces_by_name(self.theme.as_str(), token, code),
        }
    }

    fn highlight_uncached(&self, lang: &str, code: &str, width: usize) -> (rows: Vec<Row>)
        requires
            self.wf(),
        ensures
            row_views(rows@) == self.look().rows(lang@, code@, width),
    {
        let lines = match self.token_lines(lang, code) {
            Some(lines) => lines,
            None => match self.token_lines(PLAIN_TEXT, code) {
                Some(lines) => lines,
                None => Vec::new(),
            },
        };
        assert(reading_views(lines@) =~= read_code(
            self.look().theme,
            self.look().source,
            lang@,
            code@,
        ));
        self.panel_rows(&lines, width)
    }

    /// The clusters of a line, by what came of highlighting it.
    fn reading_cells(&self, reading: &Reading) -> (cells: Vec<Span>)
        ensures
            span_views(cells@) == line_cells(
                shown_pieces(
                    match *reading {
                        Ok(pieces) => Ok(piece_views(pieces@)),
                        Err(line) => Err(line@),
                    },
                ),
                self.look(),
            ),
    {
        match reading {
            Ok(pieces) => self.flatten_line(pieces),
            Err(line) => {
                let mut pieces: Vec<Piece> = Vec::new();
                pieces.push(Piece { r: 0, g: 0, b: 0, font: 0, text: line.clone() });
                assert(piece_views(pieces@) =~= seq![unread(line@)]);
                self.flatten_line(&pieces)
            },
        }
    }

    /// The rows of lines of code, by what came of highlighting them.
    pub fn panel_rows(&self, lines: &Vec<Reading>, width: usize) -> (rows: Vec<Row>)
        ensures
            row_views(rows@) == panel(shown_lines(reading_views(lines@)), width, self.look()),
    {
        let w: usize = if width < 1 {
            1
        } else {
            width
        };
        let ghost look = self.look();
        let ghost all = shown_lines(reading_views(lines@));
        let mut out: Vec<Row> = Vec::new();
        let mut i: usize = 0;
        assert(row_views(out@) =~= Seq::empty());
        while i < lines.len()
            invariant
                i <= lines@.len(),
                look == self.look(),
                all == shown_lines(reading_views(lines@)),
                row_views(out@) == coded(all, i as int, w, look),
            decreases lines@.len() - i,
        {
            let cells = self.reading_cells(&lines[i]);
            assert(all[i as int] == shown_pieces(reading_views(lines@)[i as int]));
            self.emit_wrapped(&cells, w, i, &mut out);
            i += 1;
        }
        if out.is_empty() {
            let none: Vec<Span> = Vec::new();
            assert(span_views(none@) =~= Seq::empty());
            let row = Row { line: self.pad_row(&none, 0, w), source: None };
            let ghost added = row@;
            out.push(row);
            assert(row_views(out@) =~= seq![added]);
        }
        out
    }

    fn flatten_line(&self, pieces: &Vec<Piece>) -> (cells: Vec<Span>)
        ensures
            span_views(cells@) == line_cells(piece_views(pieces@), self.look()),
    {
        let ghost look = self.look();
        let ghost all = piece_views(pieces@);
        let mut cells: Vec<Span> = Vec::new();
        let mut i: usize = 0;
        assert(all.take(0) =~= Seq::empty());
        assert(span_views(cells@) =~= Seq::empty());
        while i < pieces.len()
            invariant
                i <= pieces@.len(),
                look == self.look(),
                all == pieces@.map_values(|p: Piece| p@),
                span_views(cells@) == line_cells(all.take(i as int), look),
            decreases pieces@.len() - i,
        {
            let ghost piece = pieces@[i as int]@;
            let style = self.convert(&pieces[i]);
            let bare = strip_ending(pieces[i].text.as_str());
            let parts = graphemes(bare.as_str());
            let ghost before = span_views(cells@);
            let ghost whole = piece_cells(piece, look);
            assert(views(parts@).len() == parts@.len());
            let mut k: usize = 0;
            assert(before + whole.take(0) =~= before);
            while k < parts.len()
                invariant
                    k <= parts@.len(),
                    style == piece_style(piece, look),
                    views(parts@) == cluster_texts(without_ending(piece.text)),
                    whole == piece_cells(piece, look),
                    whole.len() == parts@.len(),
                    span_views(cells@) == before + whole.take(k as int),
                decreases parts@.len() - k,
            {
                let ghost prior = span_views(cells@);
                assert(views(parts@)[k as int] == parts@[k as int]@);
                let span = Span::styled(parts[k].clone(), style);
                let ghost added = span@;
                assert(added == whole[k as int]);
                cells.push(span);
                k += 1;
                assert(span_views(cells@) =~= prior.push(added));
                assert(whole.take(k as int) =~= whole.take(k - 1).push(added));
                assert(span_views(cells@) =~= before + whole.take(k as int));
            }
            assert(whole.take(k as int) =~= whole);
            i += 1;
            assert(all.take(i as int).drop_last() =~= all.take(i - 1));
            assert(all.take(i as int).last() == piece);
        }
        assert(all.take(i as int) =~= all);
        cells
    }

    /// Hard-wrap one logical code line into one or more padded rows; only the
    /// first row is tagged with the line's index.
    fn emit_wrapped(&self, cells: &Vec<Span>, limit: usize, index: usize, out: &mut Vec<Row>)
        ensures
            row_views(final(out)@) == row_views(old(out)@) + coded_line(
                span_views(cells@),
                limit,
                index,
                self.look(),
            ),
    {
        let ghost look = self.look();
        let ghost v = span_views(cells@);
        let ghost base = row_views(out@);
        let count: usize = cells.len();
        let mut from: usize = 0;
        let mut col: usize = 0;
        let mut first = true;
        let mut n: usize = 0;
        assert(row_views(out@) =~= base + Seq::<RowView>::empty());
        while n < count
            invariant
                count == cells@.len(),
                look == self.look(),
                v == span_views(cells@),
                from <= n <= count,
                ({
                    let s = coding(v, n as int, limit, index, look);
                    &&& s.from == from
                    &&& s.col == col
                    &&& first == (s.rows.len() == 0)
                    &&& row_views(out@) == base + s.rows
                }),
            decreases count - n,
        {
            let ghost s = coding(v, n as int, limit, index, look);
            let ghost before = row_views(out@);
            assert(v[n as int] == cells@[n as int]@);
            let w: usize = width(cells[n].text.as_str());
            if col.saturating_add(w) > limit && n > from {
                let row = self.row_of(cells, from, n, col, limit, first, index);
                let ghost added = row@;
                out.push(row);
                assert(row_views(out@) =~= before.push(added));
                assert(base + s.rows.push(added) =~= (base + s.rows).push(added));
                first = false;
                from = n;
                col = 0;
            }
            col = col.saturating_add(w);
            n += 1;
        }
        let ghost s = coding(v, n as int, limit, index, look);
        let ghost before = row_views(out@);
        let row = self.row_of(cells, from, n, col, limit, first, index);
        let ghost added = row@;
        out.push(row);
        assert(row_views(out@) =~= before.push(added));
        assert(base + s.rows.push(added) =~= (base + s.rows).push(added));
    }

    fn row_of(
        &self,
        cells: &Vec<Span>,
        from: usize,
        to: usize,
        used: usize,
        limit: usize,
        first: bool,
        index: usize,
    ) -> (row: Row)
        requires
            from <= to <= cells@.len(),
        ensures
            row@ == (RowView {
                line: padded(
                    span_views(cells@).subrange(from as int, to as int),
                    used,
                    limit,
                    self.look(),
                ),
                source: if first {
                    Some(index)
                } else {
                    None
                },
            }),
    {
        let ghost v = span_views(cells@);
        let mut part: Vec<Span> = Vec::new();
        let mut i: usize = from;
        while i < to
            invariant
                from <= i <= to <= cells@.len(),
                v == span_views(cells@),
                part@.len() == i - from,
                forall|k: int| 0 <= k < i - from ==> (#[trigger] part@[k])@ == v[from + k],
            decreases to - i,
        {
            part.push(cells[i].copy());
            i += 1;
        }
        assert(span_views(part@) =~= v.subrange(from as int, to as int));
        Row {
            line: self.pad_row(&part, used, limit),
            source: if first {
                Some(index)
            } else {
                None
            },
        }
    }

    /// Coalesce same-style runs into spans and pad the row to `limit` with the
    /// code background.
    fn pad_row(&self, row: &Vec<Span>, used: usize, limit: usize) -> (line: Line)
        ensures
            line@ == padded(span_views(row@), used, limit, self.look()),
    {
        let mut line = merge_spans(row);
        if used < limit {
            let ghost before = line@;
            let span = Span::styled(repeat_char(' ', limit - used), Style::new().bg(self.bg));
            let ghost added = span@;
            line.spans.push(span);
            assert(line@ =~= before.push(added));
        }
        line
    }

    /// The style of a piece of code (foreground, the code background, and emphasis).
    fn convert(&self, p: &Piece) -> (style: Style)
        ensures
            style == piece_style(p@, self.look()),
    {
        let mut style = Style::new().fg(rgb(p.r, p.g, p.b, self.truecolor)).bg(self.bg);
        if p.font % 2 == 1 {
            style = style.bold();
        }
        if p.font / 4 % 2 == 1 {
            style = style.italic();
        }
        if p.font / 2 % 2 == 1 {
            style = style.underlined();
        }
        style
    }
}

fn strip_ending(s: &str) -> (out: String)
    ensures
        out@ == without_ending(s@),
{
    let chars = to_chars(s);
    let mut end: usize = chars.len();
    assert(chars@.take(end as int) =~= s@);
    while end > 0 && (chars[end - 1] == '\n' || chars[end - 1] == '\r')
        invariant
            end <= chars@.len(),
            chars@ == s@,
            without_ending(s@) == without_ending(s@.take(end as int)),
        decreases end,
    {
        assert(s@.take(end as int).drop_last() =~= s@.take(end - 1));
        end -= 1;
    }
    assert(chars@.subrange(0, end as int) =~= s@.take(end as int));
    from_chars(&chars, 0, end)
}

} // verus!
