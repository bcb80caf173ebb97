//! What is drawn: the status bar, the line-number gutter, the settings popup with its
//! keybinding guide, the list that is open over the document, and where the cursor is.

use vstd::prelude::*;
use vstd::utf8::*;

use crate::app::palette::PaletteItem;
use crate::app::pickers::{DiagnosticItem, DiagnosticItemView, RecentItemView};
use crate::app::{App, AppView, LineNumbers, Mode, Preset};
use crate::color::{adapted, rgb, Color};
use crate::line_index::least;
use crate::live::{Live, LiveView};
use crate::markdown::theme::MarkdownTheme;
use crate::outline::{outline_lines, outline_views, OutlineItem, OutlineItemView};
use crate::rope::line_count;
use crate::session::RecentItem;
use crate::strings::{
    all_digits, decimal, decimal_string, digits_value, joined, lemma_decimal_reads_back,
    push_repeated, repeat_char, repeated, to_chars, views,
};
use crate::style::{line_views, raw, shown, Line, Span, SpanView, Style};
use crate::text::{cluster_texts, columns, graphemes, width};

verus! {

/// A colour of the badges, which the theme does not change.
pub open spec fn badge_color(hex: (u8, u8, u8), truecolor: bool) -> Color {
    adapted(hex.0, hex.1, hex.2, truecolor)
}

// --- texts ---

/// As many of the first `n` pieces as fit a width, and the columns that they take.
pub open spec fn clipped(pieces: Seq<Seq<char>>, max: int, n: int) -> (Seq<char>, int, bool)
    decreases n,
{
    if n <= 0 {
        (Seq::empty(), 0, true)
    } else {
        let (text, used, open) = clipped(pieces, max, n - 1);
        let w = columns(pieces[n - 1]) as int;
        if open && used + w <= max {
            (text + pieces[n - 1], used + w, true)
        } else {
            (text, used, false)
        }
    }
}

/// A text cut to a width, between grapheme clusters.
pub open spec fn clip(text: Seq<char>, max: int) -> Seq<char> {
    let c = cluster_texts(text);
    clipped(c, max, c.len() as int).0
}

/// What is clipped never takes more columns than there are.
pub proof fn lemma_clipping_fits(pieces: Seq<Seq<char>>, max: int, n: int)
    requires
        max >= 0,
        0 <= n <= pieces.len(),
    ensures
        0 <= clipped(pieces, max, n).1 <= max,
    decreases n,
{
    if n > 0 {
        lemma_clipping_fits(pieces, max, n - 1);
    }
}

/// Once something does not fit, nothing behind it is shown.
proof fn lemma_clipped_stops(pieces: Seq<Seq<char>>, max: int, k: int, n: int)
    requires
        0 <= k <= n <= pieces.len(),
        !clipped(pieces, max, k).2,
    ensures
        clipped(pieces, max, n) == clipped(pieces, max, k),
    decreases n - k,
{
    if k < n {
        lemma_clipped_stops(pieces, max, k, n - 1);
    }
}

/// A text cut to a width, between grapheme clusters.
pub fn clip_to_width(text: &str, max: usize) -> (out: String)
    ensures
        out@ == clip(text@, max as int),
{
    let pieces = graphemes(text);
    let ghost c = cluster_texts(text@);
    assert(views(pieces@) == c);
    let mut out = String::new();
    let mut used: usize = 0;
    let mut i: usize = 0;
    assert(out@ =~= clipped(c, max as int, 0).0);
    while i < pieces.len()
        invariant
            i <= pieces@.len(),
            views(pieces@) == c,
            c == cluster_texts(text@),
            used <= max,
            clipped(c, max as int, i as int) == (out@, used as int, true),
        decreases pieces@.len() - i,
    {
        assert(views(pieces@)[i as int] == pieces@[i as int]@);
        let w: usize = width(pieces[i].as_str());
        if w > max - used {
            proof {
                assert(!clipped(c, max as int, i + 1).2);
                assert(clipped(c, max as int, i + 1).0 == out@);
                lemma_clipped_stops(c, max as int, i + 1, c.len() as int);
            }
            return out;
        }
        out.append(pieces[i].as_str());
        used += w;
        i += 1;
    }
    assert(i == c.len());
    out
}

/// Some spaces, or none.
pub open spec fn spaces(n: int) -> Seq<char> {
    if n <= 0 {
        Seq::empty()
    } else {
        repeated(' ', n)
    }
}

/// A text with spaces behind it, up to a number of characters.
pub open spec fn padded(text: Seq<char>, n: int) -> Seq<char> {
    text + spaces(n - text.len())
}

/// A text with spaces behind it, up to a number of characters.
pub fn pad_right(text: &str, n: usize) -> (out: String)
    ensures
        out@ == padded(text@, n as int),
{
    let len: usize = to_chars(text).len();
    let mut out = text.to_owned();
    if len < n {
        push_repeated(&mut out, ' ', n - len);
    } else {
        assert(out@ =~= padded(text@, n as int));
    }
    out
}

/// A number with spaces before it, up to a number of characters.
pub open spec fn right_aligned(n: nat, len: int) -> Seq<char> {
    spaces(len - decimal(n).len()) + decimal(n)
}

/// A number with spaces before it, up to a number of characters.
pub fn align_right(n: usize, len: usize) -> (out: String)
    ensures
        out@ == right_aligned(n as nat, len as int),
{
    let digits = decimal_string(n);
    let count: usize = to_chars(digits.as_str()).len();
    let mut out = String::new();
    if count < len {
        out = repeat_char(' ', len - count);
    } else {
        assert(spaces(len - count) =~= out@);
    }
    out.append(digits.as_str());
    out
}

/// A Control chord: `⌃S` on macOS, `Ctrl+S` elsewhere.
pub open spec fn control(k: Seq<char>, mac: bool) -> Seq<char> {
    if mac {
        "\u{2303}"@ + k
    } else {
        "Ctrl+"@ + k
    }
}

/// Platform-aware Control chord: `⌃S` on macOS, `Ctrl+S` elsewhere.
pub fn ck(k: &str, mac: bool) -> (out: String)
    ensures
        out@ == control(k@, mac),
{
    if mac {
        joined("\u{2303}", k)
    } else {
        joined("Ctrl+", k)
    }
}

/// A Shift chord: `⇧` on macOS, `Shift+` elsewhere.
pub open spec fn shifted(k: Seq<char>, mac: bool) -> Seq<char> {
    if mac {
        "\u{21e7}"@ + k
    } else {
        "Shift+"@ + k
    }
}

/// Platform-aware Shift chord: `⇧` on macOS, `Shift+` elsewhere.
pub fn sk(k: &str, mac: bool) -> (out: String)
    ensures
        out@ == shifted(k@, mac),
{
    if mac {
        joined("\u{21e7}", k)
    } else {
        joined("Shift+", k)
    }
}

// --- the status bar ---

/// Badge label and accent colour for the current mode.
pub open spec fn badge(v: AppView) -> (Seq<char>, Color) {
    let t = v.desk.truecolor;
    if v.desk.menu is Some {
        ("MENU"@, badge_color((0x7d, 0xcf, 0xff), t))
    } else if v.desk.mode == Mode::Read {
        ("READ"@, badge_color((0x7d, 0xcf, 0xff), t))
    } else if v.desk.raw_view {
        ("RAW"@, badge_color((0xf7, 0x76, 0x8e), t))
    } else if v.desk.table_mode {
        ("TABLE"@, badge_color((0xe0, 0xaf, 0x68), t))
    } else {
        match v.desk.mode {
            Mode::Insert => ("INSERT"@, badge_color((0x7a, 0xa2, 0xf7), t)),
            Mode::Normal => ("NORMAL"@, badge_color((0x9e, 0xce, 0x6a), t)),
            Mode::Visual => ("VISUAL"@, badge_color((0xbb, 0x9a, 0xf7), t)),
            Mode::Read => ("READ"@, badge_color((0x7d, 0xcf, 0xff), t)),
        }
    }
}

/// Badge label and accent colour for the current mode.
pub fn mode_badge(app: &App) -> (r: (&'static str, Color))
    requires
        app.wf(),
    ensures
        (r.0@, r.1) == badge(app@),
{
    let d = app.desk();
    let t = d.truecolor;
    if d.menu.is_some() {
        return ("MENU", rgb(0x7d, 0xcf, 0xff, t));
    }
    if d.mode.is_read() {
        return ("READ", rgb(0x7d, 0xcf, 0xff, t));
    }
    if d.raw_view {
        return ("RAW", rgb(0xf7, 0x76, 0x8e, t));
    }
    if d.table_mode {
        return ("TABLE", rgb(0xe0, 0xaf, 0x68, t));
    }
    match d.mode {
        Mode::Insert => ("INSERT", rgb(0x7a, 0xa2, 0xf7, t)),
        Mode::Normal => ("NORMAL", rgb(0x9e, 0xce, 0x6a, t)),
        Mode::Visual => ("VISUAL", rgb(0xbb, 0x9a, 0xf7, t)),
        Mode::Read => ("READ", rgb(0x7d, 0xcf, 0xff, t)),
    }
}

/// The hints of the status bar where there is nothing to say.
pub open spec fn hints(v: AppView) -> Seq<char> {
    if v.desk.menu is Some {
        "\u{2191}\u{2193} move · \u{2190}\u{2192} change · \u{23ce} accept · esc cancel "@
    } else if v.desk.mode == Mode::Read {
        "q/Esc back · ^G menu · ^Q quit "@
    } else {
        "Ln "@ + decimal((v.editor.cursor_line() + 1) as nat) + ", Col "@ + decimal(
            (v.editor.layout().position(v.editor.cursor.byte as int).1 + 1) as nat,
        ) + "   ^G menu · ^S save · ^Q quit "@
    }
}

/// The right side of the status bar: what there is to say, or the hints, behind the
/// counters where they are shown.
pub open spec fn status_right(v: AppView, counters: Option<Seq<char>>) -> (Seq<char>, Style) {
    let (text, style) = match v.status {
        Some(message) => (message + " "@, v.theme.status),
        None => (hints(v), v.theme.status.with_dim()),
    };
    match counters {
        Some(c) => (c + " · "@ + text, style),
        None => (text, style),
    }
}

/// The style of the mode badge.
pub open spec fn badge_style(accent: Color, truecolor: bool) -> Style {
    Style::plain().with_bg(accent).with_fg(
        badge_color((0x1a, 0x1b, 0x26), truecolor),
    ).with_bold()
}

/// The status bar: a colored mode badge, the file name (with a `[+]` modified
/// flag), and — right-aligned — the cursor position plus the hints worth the space. A
/// status message temporarily replaces the right side. Where the left side does not fit,
/// as much of it as does is shown; where the right side does not fit, it is left out.
pub open spec fn status_bar(v: AppView, max: int, counters: Option<Seq<char>>) -> Seq<SpanView> {
    let status = v.theme.status;
    let (label, accent) = badge(v);
    let mark = " "@ + label + " "@;
    let name = " "@ + v.editor.doc.shown_name();
    let flag = if v.editor.doc.modified {
        " [+]"@
    } else {
        ""@
    };
    let (right, right_style) = status_right(v, counters);
    let left = columns(mark).saturating_add(columns(name)).saturating_add(columns(flag)) as int;
    let fill = max - left - columns(right);
    let spans = seq![
        shown(mark, badge_style(accent, v.desk.truecolor)),
        shown(name, status),
        shown(flag, status.with_fg(badge_color((0xe0, 0xaf, 0x68), v.desk.truecolor))),
    ];
    if left > max {
        seq![shown(clip(mark + name + flag, max), status)]
    } else if fill >= 0 {
        spans + seq![shown(repeated(' ', fill), status), shown(right, right_style)]
    } else {
        spans
    }
}

/// The hints of the status bar where there is nothing to say.
#[verifier::spinoff_prover]
fn status_hints(app: &mut App) -> (text: String)
    requires
        old(app).wf(),
    ensures
        final(app).wf(),
        final(app)@ == old(app)@,
        text@ == hints(old(app)@),
{
    let d = app.desk();
    if d.menu.is_some() {
        return "\u{2191}\u{2193} move · \u{2190}\u{2192} change · \u{23ce} accept · esc cancel ".to_owned();
    }
    if d.mode.is_read() {
        return "q/Esc back · ^G menu · ^Q quit ".to_owned();
    }
    let (line, col) = app.cursor_line_col();
    let mut text = "Ln ".to_owned();
    crate::strings::push_decimal(&mut text, line);
    text.append(", Col ");
    crate::strings::push_decimal(&mut text, col);
    text.append("   ^G menu · ^S save · ^Q quit ");
    text
}

/// The right side of the status bar.
#[verifier::spinoff_prover]
fn right_side(app: &mut App, counters: Option<&str>) -> (r: (String, Style))
    requires
        old(app).wf(),
    ensures
        final(app).wf(),
        final(app)@ == old(app)@,
        (r.0@, r.1) == status_right(
            old(app)@,
            match counters {
                Some(c) => Some(c@),
                None => None,
            },
        ),
{
    let status = app.theme().status;
    let (text, style) = match app.status_text() {
        Some(message) => (joined(message.as_str(), " "), status),
        None => {
            let text = status_hints(app);
            (text, status.dim())
        },
    };
    match counters {
        Some(c) => {
            let mut all = joined(c, " · ");
            all.append(text.as_str());
            (all, style)
        },
        None => (text, style),
    }
}

/// The status bar.
#[verifier::spinoff_prover]
pub fn build_status(app: &mut App, max: usize, counters: Option<&str>) -> (line: Line)
    requires
        old(app).wf(),
    ensures
        final(app).wf(),
        final(app)@ == old(app)@,
        line@ == status_bar(
            old(app)@,
            max as int,
            match counters {
                Some(c) => Some(c@),
                None => None,
            },
        ),
{
    let status = app.theme().status;
    let truecolor = app.desk().truecolor;
    let (label, accent) = mode_badge(app);
    let mut mark = joined(" ", label);
    mark.append(" ");
    let name = joined(" ", app.shown_name().as_str());
    let flag: &'static str = if app.is_modified() {
        " [+]"
    } else {
        ""
    };
    let (right, right_style) = right_side(app, counters);
    let left: usize = width(mark.as_str()).saturating_add(width(name.as_str())).saturating_add(
        width(flag),
    );
    if left > max {
        let mut all = mark;
        all.append(name.as_str());
        all.append(flag);
        return Line::of(Span::styled(clip_to_width(all.as_str(), max), status));
    }
    let badge_look = Style::new().bg(accent).fg(rgb(0x1a, 0x1b, 0x26, truecolor)).bold();
    let room: usize = max - left;
    let taken: usize = width(right.as_str());
    let mut spans: Vec<Span> = Vec::new();
    spans.push(Span::styled(mark, badge_look));
    spans.push(Span::styled(name, status));
    spans.push(Span::styled(flag.to_owned(), status.fg(rgb(0xe0, 0xaf, 0x68, truecolor))));
    if taken <= room {
        spans.push(Span::styled(repeat_char(' ', room - taken), status));
        spans.push(Span::styled(right, right_style));
    }
    let line = Line { spans };
    assert(line@ =~= status_bar(
        old(app)@,
        max as int,
        match counters {
            Some(c) => Some(c@),
            None => None,
        },
    ));
    line
}

// --- the gutter ---

/// The columns of the line-number gutter.
pub open spec fn gutter_columns(v: AppView, editor_width: int) -> int {
    if v.desk.mode == Mode::Read || v.desk.line_numbers == LineNumbers::Off {
        0
    } else {
        let digits = decimal(line_count(v.editor.bytes()) as nat).len() as int;
        least(
            digits + 1,
            if editor_width == 0 {
                0
            } else {
                editor_width - 1
            },
        )
    }
}

/// The columns of the line-number gutter.
pub fn gutter_width(app: &App, editor_width: usize) -> (columns: usize)
    requires
        app.wf(),
    ensures
        columns == gutter_columns(app@, editor_width as int),
{
    let d = app.desk();
    if d.mode.is_read() || d.line_numbers == LineNumbers::Off {
        return 0;
    }
    let digits: usize = to_chars(decimal_string(app.line_total()).as_str()).len();
    let max: usize = editor_width.saturating_sub(1);
    if digits < max {
        digits + 1
    } else {
        max
    }
}

/// The number that is shown for a line, if one is.
pub open spec fn gutter_number(numbers: LineNumbers, line: int, current: int) -> int {
    match numbers {
        LineNumbers::Absolute => line,
        LineNumbers::Relative => if line == current {
            line
        } else if line < current {
            current - line
        } else {
            line - current
        },
        LineNumbers::Off => 0,
    }
}

/// The gutter beside a row, which shows the line number given, if one is.
pub open spec fn gutter_row(v: AppView, number: Option<usize>, columns: int) -> Seq<SpanView> {
    let current = v.editor.cursor_line() + 1;
    let n = match number {
        Some(line) => gutter_number(v.desk.line_numbers, line as int, current),
        None => 0,
    };
    seq![
        shown(
            if n > 0 {
                right_aligned(
                    n as nat,
                    if columns == 0 {
                        0
                    } else {
                        columns - 1
                    },
                ) + " "@
            } else {
                repeated(' ', columns)
            },
            if number matches Some(line) && line == current {
                v.theme.gutter_current
            } else {
                v.theme.gutter
            },
        ),
    ]
}

/// The gutter beside the rows given, which show the line numbers given.
pub open spec fn gutter(v: AppView, numbers: Seq<Option<usize>>, columns: int, height: int) -> Seq<
    Seq<SpanView>,
> {
    Seq::new(
        height as nat,
        |row: int|
            gutter_row(
                v,
                if row < numbers.len() {
                    numbers[row]
                } else {
                    None
                },
                columns,
            ),
    )
}

/// Beside a line that has a number, the gutter shows that number in digits, with spaces
/// around it and nothing else: with absolute numbers the number of the line; with relative
/// numbers, how many lines it is away from the cursor's line, whichever way, and on the
/// cursor's line the number of the line. With numbers off, and beside rows without a number,
/// it is blank. The cursor's line stands out.
pub proof fn lemma_gutter_numbers(
    v: AppView,
    numbers: Seq<Option<usize>>,
    columns: int,
    height: int,
    row: int,
)
    requires
        0 <= row < height,
        0 <= columns,
    ensures
        ({
            let g = gutter(v, numbers, columns, height);
            let cursor = v.editor.cursor_line() + 1;
            &&& g.len() == height
            &&& g[row].len() == 1
            &&& row < numbers.len() && numbers[row] is Some && numbers[row]->0 > 0
                && v.desk.line_numbers != LineNumbers::Off ==> ({
                let line = numbers[row]->0 as int;
                let away = if line < cursor {
                    cursor - line
                } else {
                    line - cursor
                };
                exists|pad: int, digits: Seq<char>|
                    {
                        &&& #[trigger] (spaces(pad) + digits + " "@) == g[row][0].text
                        &&& all_digits(digits)
                        &&& digits_value(digits) == if v.desk.line_numbers
                            == LineNumbers::Relative && away > 0 {
                            away
                        } else {
                            line
                        }
                    }
            })
            &&& v.desk.line_numbers == LineNumbers::Off || row >= numbers.len()
                || numbers[row] is None ==> g[row][0].text == spaces(columns)
            &&& g[row][0].style == if row < numbers.len() && numbers[row] is Some
                && numbers[row]->0 == cursor {
                v.theme.gutter_current
            } else {
                v.theme.gutter
            }
        }),
{
    let g = gutter(v, numbers, columns, height);
    let cursor = v.editor.cursor_line() + 1;
    assert(repeated(' ', columns) =~= spaces(columns));
    if row < numbers.len() && numbers[row] is Some {
        let line = numbers[row]->0 as int;
        let n = gutter_number(v.desk.line_numbers, line, cursor);
        if n > 0 {
            lemma_decimal_reads_back(n as nat);
            let len = if columns == 0 {
                0
            } else {
                columns - 1
            };
            assert(spaces(len - decimal(n as nat).len()) + decimal(n as nat) + " "@
                == g[row][0].text);
        }
    }
}

/// The gutter beside a row.
#[verifier::spinoff_prover]
fn gutter_line(app: &App, number: Option<usize>, columns: usize) -> (line: Line)
    requires
        app.wf(),
    ensures
        line@ == gutter_row(app@, number, columns as int),
{
    let numbers = app.desk().line_numbers;
    let current: usize = app.cursor_line() + 1;
    let theme = app.theme();
    let n: usize = match number {
        Some(line) => match numbers {
            LineNumbers::Absolute => line,
            LineNumbers::Relative => if line == current {
                line
            } else if line < current {
                current - line
            } else {
                line - current
            },
            LineNumbers::Off => 0,
        },
        None => 0,
    };
    let text = if n > 0 {
        let mut t = align_right(n, columns.saturating_sub(1));
        t.append(" ");
        t
    } else {
        repeat_char(' ', columns)
    };
    let here = match number {
        Some(line) => line == current,
        None => false,
    };
    let style = if here {
        theme.gutter_current
    } else {
        theme.gutter
    };
    Line::of(Span::styled(text, style))
}

/// The gutter beside the rows given, which show the line numbers given.
#[verifier::spinoff_prover]
pub fn gutter_lines(app: &App, numbers: &Vec<Option<usize>>, columns: usize, height: usize) -> (out:
    Vec<Line>)
    requires
        app.wf(),
    ensures
        line_views(out@) == gutter(app@, numbers@, columns as int, height as int),
{
    let mut out: Vec<Line> = Vec::new();
    let mut row: usize = 0;
    while row < height
        invariant
            row <= height,
            app.wf(),
            out@.len() == row,
            forall|k: int|
                0 <= k < row ==> (#[trigger] out@[k])@ == gutter_row(
                    app@,
                    if k < numbers@.len() {
                        numbers@[k]
                    } else {
                        None
                    },
                    columns as int,
                ),
        decreases height - row,
    {
        let number: Option<usize> = if row < numbers.len() {
            numbers[row]
        } else {
            None
        };
        out.push(gutter_line(app, number, columns));
        row += 1;
    }
    assert(line_views(out@) =~= gutter(app@, numbers@, columns as int, height as int));
    out
}

// --- the settings popup ---

/// One line of the keybinding guide.
pub enum GuideLine {
    Heading(String),
    Row(String, &'static str),
    Blank,
}

/// What a [`GuideLine`] says.
pub enum GuideView {
    Heading(Seq<char>),
    Row(Seq<char>, Seq<char>),
    Blank,
}

impl View for GuideLine {
    type V = GuideView;

    open spec fn view(&self) -> GuideView {
        match self {
            GuideLine::Heading(text) => GuideView::Heading(text@),
            GuideLine::Row(keys, action) => GuideView::Row(keys@, action@),
            GuideLine::Blank => GuideView::Blank,
        }
    }
}

/// What lines of the guide say.
pub open spec fn guide_views(lines: Seq<GuideLine>) -> Seq<GuideView> {
    lines.map_values(|l: GuideLine| l@)
}

/// The part of the guide that is the same in every preset.
pub open spec fn global_guide(mac: bool) -> Seq<GuideView> {
    seq![
        GuideView::Heading(
            "Global \u{b7} "@ + if mac {
                "macOS"@
            } else {
                "Linux / Windows"@
            },
        ),
        GuideView::Row(control("S"@, mac) + " / "@ + control("Q"@, mac), "save \u{b7} quit"@),
        GuideView::Row(control("P"@, mac), "toggle preview"@),
        GuideView::Row(control("R"@, mac), "raw source view"@),
        GuideView::Row(control("L"@, mac), "cycle keybindings"@),
        GuideView::Row(control("T"@, mac), "table row mode"@),
        GuideView::Row(control("B"@, mac), "block / line cursor"@),
        GuideView::Blank,
        GuideView::Heading("Find & Replace"@),
        GuideView::Row("\u{21b5} / \u{2193} \u{2191}"@, "next \u{b7} previous match"@),
        GuideView::Row("Tab"@, "switch find / replace"@),
        GuideView::Row(
            "\u{21b5} \u{b7} "@ + control("A"@, mac),
            "replace one \u{b7} replace all"@,
        ),
        GuideView::Blank,
        GuideView::Heading("Mouse"@),
        GuideView::Row("click / drag"@, "place cursor \u{b7} select"@),
        GuideView::Row("wheel"@, "scroll (any key returns)"@),
        GuideView::Blank,
    ]
}

/// The part of the guide for a preset (Vim letter-keys and Emacs `C-`/`M-` notation are mode
/// notation, kept verbatim; the Ctrl-based chords adapt to the platform).
pub open spec fn preset_guide(preset: Preset, mac: bool) -> Seq<GuideView> {
    match preset {
        Preset::Standard => seq![
            GuideView::Heading("Standard"@),
            GuideView::Row(
                control("A"@, mac) + " "@ + control("C"@, mac) + "/"@ + control("X"@, mac) + "/"@
                    + control("V"@, mac),
                "select all \u{b7} copy/cut/paste"@,
            ),
            GuideView::Row(control("Z"@, mac) + " / "@ + control("Y"@, mac), "undo \u{b7} redo"@),
            GuideView::Row(control("F"@, mac), "find"@),
            GuideView::Row(control("\u{2190}/\u{2192}"@, mac), "move by word"@),
            GuideView::Row(control("Home/End"@, mac), "document start \u{b7} end"@),
            GuideView::Row(shifted("motion"@, mac), "extend selection"@),
        ],
        Preset::Vim => seq![
            GuideView::Heading("Vim"@),
            GuideView::Row("i a I A o O"@, "insert \u{b7} append \u{b7} open lines"@),
            GuideView::Row("h j k l"@, "move (also arrows)"@),
            GuideView::Row("w b 0 $ gg G"@, "word \u{b7} line \u{b7} document motions"@),
            GuideView::Row(
                "v y d x dd yy p"@,
                "visual \u{b7} yank \u{b7} delete \u{b7} paste"@,
            ),
            GuideView::Row("/ \u{b7} n / N"@, "find \u{b7} next / previous"@),
            GuideView::Row("u \u{b7} ^R"@, "undo \u{b7} redo"@),
            GuideView::Row("?"@, "this menu (normal mode)"@),
        ],
        Preset::Nano => seq![
            GuideView::Heading("Nano"@),
            GuideView::Row(
                control("K"@, mac) + " / "@ + control("U"@, mac) + " / "@ + control("O"@, mac),
                "cut \u{b7} paste \u{b7} save"@,
            ),
            GuideView::Row(
                control("F"@, mac) + " / "@ + control("W"@, mac),
                "find (\"Where Is\")"@,
            ),
            GuideView::Row(shifted("motion"@, mac), "extend selection"@),
        ],
        Preset::Emacs => seq![
            GuideView::Heading("Emacs"@),
            GuideView::Row(
                "C-a/e/f/n"@,
                "line start/end \u{b7} char \u{b7} line (arrows too)"@,
            ),
            GuideView::Row("M-f / M-b"@, "move by word"@),
            GuideView::Row("M-s"@, "find"@),
            GuideView::Row(
                "C-Space C-w M-w C-y"@,
                "mark \u{b7} cut \u{b7} copy \u{b7} paste"@,
            ),
            GuideView::Row("C-x C-s / C-x C-c"@, "save \u{b7} quit"@),
        ],
    }
}

/// Two texts with another between them.
fn with_between(a: &str, between: &str, b: &str) -> (out: String)
    ensures
        out@ == a@ + between@ + b@,
{
    let mut out = a.to_owned();
    out.append(between);
    out.append(b);
    out
}

/// The part of the guide that is the same in every preset.
#[verifier::spinoff_prover]
fn list_global(mac: bool) -> (out: Vec<GuideLine>)
    ensures
        guide_views(out@) == global_guide(mac),
{
    let mut out: Vec<GuideLine> = Vec::new();
    let platform: &'static str = if mac {
        "macOS"
    } else {
        "Linux / Windows"
    };
    out.push(GuideLine::Heading(joined("Global \u{b7} ", platform)));
    out.push(
        GuideLine::Row(
            with_between(ck("S", mac).as_str(), " / ", ck("Q", mac).as_str()),
            "save \u{b7} quit",
        ),
    );
    out.push(GuideLine::Row(ck("P", mac), "toggle preview"));
    out.push(GuideLine::Row(ck("R", mac), "raw source view"));
    out.push(GuideLine::Row(ck("L", mac), "cycle keybindings"));
    out.push(GuideLine::Row(ck("T", mac), "table row mode"));
    out.push(GuideLine::Row(ck("B", mac), "block / line cursor"));
    out.push(GuideLine::Blank);
    out.push(GuideLine::Heading("Find & Replace".to_owned()));
    out.push(
        GuideLine::Row(
            "\u{21b5} / \u{2193} \u{2191}".to_owned(),
            "next \u{b7} previous match",
        ),
    );
    out.push(GuideLine::Row("Tab".to_owned(), "switch find / replace"));
    out.push(
        GuideLine::Row(
            joined("\u{21b5} \u{b7} ", ck("A", mac).as_str()),
            "replace one \u{b7} replace all",
        ),
    );
    out.push(GuideLine::Blank);
    out.push(GuideLine::Heading("Mouse".to_owned()));
    out.push(GuideLine::Row("click / drag".to_owned(), "place cursor \u{b7} select"));
    out.push(GuideLine::Row("wheel".to_owned(), "scroll (any key returns)"));
    out.push(GuideLine::Blank);
    assert(guide_views(out@) =~= global_guide(mac));
    out
}

/// The part of the guide for a preset.
#[verifier::spinoff_prover]
fn list_preset(preset: Preset, mac: bool) -> (out: Vec<GuideLine>)
    ensures
        guide_views(out@) == preset_guide(preset, mac),
{
    let mut out: Vec<GuideLine> = Vec::new();
    match preset {
        Preset::Standard => {
            out.push(GuideLine::Heading("Standard".to_owned()));
            let mut keys = with_between(ck("A", mac).as_str(), " ", ck("C", mac).as_str());
            keys.append("/");
            keys.append(ck("X", mac).as_str());
            keys.append("/");
            keys.append(ck("V", mac).as_str());
            out.push(GuideLine::Row(keys, "select all \u{b7} copy/cut/paste"));
            out.push(
                GuideLine::Row(
                    with_between(ck("Z", mac).as_str(), " / ", ck("Y", mac).as_str()),
                    "undo \u{b7} redo",
                ),
            );
            out.push(GuideLine::Row(ck("F", mac), "find"));
            out.push(GuideLine::Row(ck("\u{2190}/\u{2192}", mac), "move by word"));
            out.push(GuideLine::Row(ck("Home/End", mac), "document start \u{b7} end"));
            out.push(GuideLine::Row(sk("motion", mac), "extend selection"));
        },
        Preset::Vim => {
            out.push(GuideLine::Heading("Vim".to_owned()));
            out.push(
                GuideLine::Row(
                    "i a I A o O".to_owned(),
                    "insert \u{b7} append \u{b7} open lines",
                ),
            );
            out.push(GuideLine::Row("h j k l".to_owned(), "move (also arrows)"));
            out.push(
                GuideLine::Row(
                    "w b 0 $ gg G".to_owned(),
                    "word \u{b7} line \u{b7} document motions",
                ),
            );
            out.push(
                GuideLine::Row(
                    "v y d x dd yy p".to_owned(),
                    "visual \u{b7} yank \u{b7} delete \u{b7} paste",
                ),
            );
            out.push(
                GuideLine::Row("/ \u{b7} n / N".to_owned(), "find \u{b7} next / previous"),
            );
            out.push(GuideLine::Row("u \u{b7} ^R".to_owned(), "undo \u{b7} redo"));
            out.push(GuideLine::Row("?".to_owned(), "this menu (normal mode)"));
        },
        Preset::Nano => {
            out.push(GuideLine::Heading("Nano".to_owned()));
            let mut keys = with_between(ck("K", mac).as_str(), " / ", ck("U", mac).as_str());
            keys.append(" / ");
            keys.append(ck("O", mac).as_str());
            out.push(GuideLine::Row(keys, "cut \u{b7} paste \u{b7} save"));
            out.push(
                GuideLine::Row(
                    with_between(ck("F", mac).as_str(), " / ", ck("W", mac).as_str()),
                    "find (\"Where Is\")",
                ),
            );
            out.push(GuideLine::Row(sk("motion", mac), "extend selection"));
        },
        Preset::Emacs => {
            out.push(GuideLine::Heading("Emacs".to_owned()));
            out.push(
                GuideLine::Row(
                    "C-a/e/f/n".to_owned(),
                    "line start/end \u{b7} char \u{b7} line (arrows too)",
                ),
            );
            out.push(GuideLine::Row("M-f / M-b".to_owned(), "move by word"));
            out.push(GuideLine::Row("M-s".to_owned(), "find"));
            out.push(
                GuideLine::Row(
                    "C-Space C-w M-w C-y".to_owned(),
                    "mark \u{b7} cut \u{b7} copy \u{b7} paste",
                ),
            );
            out.push(GuideLine::Row("C-x C-s / C-x C-c".to_owned(), "save \u{b7} quit"));
        },
    }
    assert(guide_views(out@) =~= preset_guide(preset, mac));
    out
}

/// One drawn line of the guide: a left-aligned key column plus its action.
pub open spec fn guide_row(line: GuideView, theme: MarkdownTheme) -> Seq<SpanView> {
    match line {
        GuideView::Heading(text) => seq![shown(text, theme.heading_of(2))],
        GuideView::Row(keys, action) => seq![
            shown("  "@ + padded(keys, 18), theme.list_marker),
            shown(" "@ + action, theme.text),
        ],
        GuideView::Blank => Seq::empty(),
    }
}

/// The keybinding guide, formatted for a platform and filtered to the active preset.
pub open spec fn guide(preset: Preset, theme: MarkdownTheme, mac: bool) -> Seq<Seq<SpanView>> {
    (global_guide(mac) + preset_guide(preset, mac)).map_values(|l: GuideView| guide_row(l, theme))
}

/// One drawn line of the guide.
#[verifier::spinoff_prover]
fn draw_guide_line(line: &GuideLine, theme: &MarkdownTheme) -> (out: Line)
    ensures
        out@ == guide_row(line@, *theme),
{
    match line {
        GuideLine::Heading(text) => Line::of(Span::styled(text.clone(), theme.heading(2))),
        GuideLine::Row(keys, action) => {
            let mut spans: Vec<Span> = Vec::new();
            let key_column = joined("  ", pad_right(keys.as_str(), 18).as_str());
            spans.push(Span::styled(key_column, theme.list_marker));
            spans.push(Span::styled(joined(" ", action), theme.text));
            let out = Line { spans };
            assert(out@ =~= guide_row(line@, *theme));
            out
        },
        GuideLine::Blank => Line::empty(),
    }
}

/// Draw lines of the guide behind others.
#[verifier::spinoff_prover]
fn draw_guide(out: &mut Vec<Line>, lines: &Vec<GuideLine>, theme: &MarkdownTheme)
    ensures
        line_views(final(out)@) == line_views(old(out)@) + guide_views(lines@).map_values(
            |l: GuideView| guide_row(l, *theme),
        ),
{
    let ghost before = line_views(out@);
    let ghost drawn = guide_views(lines@).map_values(|l: GuideView| guide_row(l, *theme));
    let mut i: usize = 0;
    assert(before + drawn.take(0) =~= before);
    while i < lines.len()
        invariant
            i <= lines@.len(),
            drawn == guide_views(lines@).map_values(|l: GuideView| guide_row(l, *theme)),
            line_views(out@) == before + drawn.take(i as int),
        decreases lines@.len() - i,
    {
        let ghost prior = line_views(out@);
        let line = draw_guide_line(&lines[i], theme);
        let ghost one = line@;
        out.push(line);
        assert(guide_views(lines@)[i as int] == lines@[i as int]@);
        assert(line_views(out@) =~= prior.push(one));
        assert(drawn.take(i + 1) =~= drawn.take(i as int).push(one));
        assert(line_views(out@) =~= before + drawn.take(i + 1));
        i += 1;
    }
    assert(drawn.take(i as int) =~= drawn);
}

/// The keybinding guide, formatted for a platform and filtered to the active preset.
#[verifier::spinoff_prover]
pub fn guide_lines(app: &App, mac: bool) -> (out: Vec<Line>)
    requires
        app.wf(),
    ensures
        line_views(out@) == guide(app@.desk.preset, app@.theme, mac),
{
    let preset = app.preset();
    let theme = app.theme();
    let mut out: Vec<Line> = Vec::new();
    let global = list_global(mac);
    let own = list_preset(preset, mac);
    assert(line_views(out@) =~= Seq::empty());
    draw_guide(&mut out, &global, theme);
    draw_guide(&mut out, &own, theme);
    assert(line_views(out@) =~= guide(preset, *theme, mac));
    out
}

/// The name of a preset in the settings popup.
pub open spec fn preset_title(preset: Preset) -> Seq<char> {
    match preset {
        Preset::Standard => "Standard"@,
        Preset::Vim => "Vim"@,
        Preset::Nano => "Nano"@,
        Preset::Emacs => "Emacs"@,
    }
}

/// A row of the settings popup; the value of the focused one stands between selectors.
pub open spec fn setting_row(
    name: Seq<char>,
    value: Seq<char>,
    focused: bool,
    theme: MarkdownTheme,
) -> Seq<SpanView> {
    let arrow = theme.list_marker;
    if focused {
        seq![
            shown("  \u{25b8} "@, arrow),
            shown(padded(name, 13), theme.marker),
            shown("\u{25c2} "@, arrow),
            shown(value, theme.keyword_note),
            shown(" \u{25b8}"@, arrow),
        ]
    } else {
        seq![
            shown("    "@, arrow),
            shown(padded(name, 13), theme.marker),
            shown("  "@, arrow),
            shown(value, theme.text),
            shown("  "@, arrow),
        ]
    }
}

/// The focused row of the settings popup.
pub open spec fn focus_of(v: AppView) -> usize {
    match v.desk.menu {
        Some(m) => m.focus,
        None => 0,
    }
}

/// The rows of the settings popup: keybindings, theme, appearance and line numbers.
pub open spec fn settings(v: AppView) -> Seq<Seq<SpanView>> {
    let f = focus_of(v);
    let t = v.theme;
    seq![
        setting_row("Keybindings"@, preset_title(v.desk.preset), f == 0, t),
        setting_row("Theme"@, t.name.label_text(), f == 1, t),
        setting_row("Appearance"@, t.variant.label_text(), f == 2, t),
        setting_row("Line numbers"@, v.desk.line_numbers.config_text(), f == 3, t),
    ]
}

/// A row of the settings popup.
#[verifier::spinoff_prover]
fn draw_setting(name: &str, value: &str, focused: bool, theme: &MarkdownTheme) -> (line: Line)
    ensures
        line@ == setting_row(name@, value@, focused, *theme),
{
    let arrow = theme.list_marker;
    let mark: &'static str = if focused {
        "  \u{25b8} "
    } else {
        "    "
    };
    let left: &'static str = if focused {
        "\u{25c2} "
    } else {
        "  "
    };
    let right: &'static str = if focused {
        " \u{25b8}"
    } else {
        "  "
    };
    let look = if focused {
        theme.keyword_note
    } else {
        theme.text
    };
    let mut spans: Vec<Span> = Vec::new();
    spans.push(Span::styled(mark.to_owned(), arrow));
    spans.push(Span::styled(pad_right(name, 13), theme.marker));
    spans.push(Span::styled(left.to_owned(), arrow));
    spans.push(Span::styled(value.to_owned(), look));
    spans.push(Span::styled(right.to_owned(), arrow));
    let line = Line { spans };
    assert(line@ =~= setting_row(name@, value@, focused, *theme));
    line
}

/// The rows of the settings popup.
#[verifier::spinoff_prover]
pub fn setting_rows(app: &App) -> (out: Vec<Line>)
    requires
        app.wf(),
    ensures
        line_views(out@) == settings(app@),
{
    let theme = app.theme();
    let focus: usize = app.menu_focus();
    let title: &'static str = match app.preset() {
        Preset::Standard => "Standard",
        Preset::Vim => "Vim",
        Preset::Nano => "Nano",
        Preset::Emacs => "Emacs",
    };
    let mut out: Vec<Line> = Vec::new();
    out.push(draw_setting("Keybindings", title, focus == 0, theme));
    out.push(draw_setting("Theme", theme.name.label(), focus == 1, theme));
    out.push(draw_setting("Appearance", theme.variant.label(), focus == 2, theme));
    out.push(
        draw_setting("Line numbers", app.line_numbers().config_name(), focus == 3, theme),
    );
    assert(line_views(out@) =~= settings(app@));
    out
}

/// An area of the screen.
#[derive(Clone, Copy, Debug, PartialEq, Eq, Structural)]
pub struct Area {
    pub x: u16,
    pub y: u16,
    pub width: u16,
    pub height: u16,
}

/// The widest that the settings popup is.
pub const POPUP_WIDTH: u16 = 72;

/// The smaller of a number and one less than another by `less`, which is one at least.
pub open spec fn within(want: int, available: u16, less: u16) -> u16 {
    let max = if available.saturating_sub(less) == 0 {
        1
    } else {
        available.saturating_sub(less) as int
    };
    least(want, max) as u16
}

/// Where the settings popup is drawn: centred, as wide and high as it wants to be and the
/// area allows.
pub open spec fn popup(area: Area, rows: int) -> Area {
    let w = within(POPUP_WIDTH as int, area.width, 2);
    let h = within(rows + 3, area.height, 1);
    Area {
        x: area.x.saturating_add(area.width.saturating_sub(w) / 2),
        y: area.y.saturating_add(area.height.saturating_sub(h) / 2),
        width: w,
        height: h,
    }
}

fn limit(want: usize, available: u16, less: u16) -> (out: u16)
    ensures
        out == within(want as int, available, less),
{
    let room: u16 = available.saturating_sub(less);
    let max: u16 = if room == 0 {
        1
    } else {
        room
    };
    if want < max as usize {
        want as u16
    } else {
        max
    }
}

/// Where the settings popup of some rows, border and separator aside, is drawn.
pub fn popup_area(area: Area, rows: usize) -> (out: Area)
    requires
        rows + 3 <= usize::MAX,
    ensures
        out == popup(area, rows as int),
{
    let w: u16 = limit(POPUP_WIDTH as usize, area.width, 2);
    let h: u16 = limit(rows + 3, area.height, 1);
    Area {
        x: area.x.saturating_add(area.width.saturating_sub(w) / 2),
        y: area.y.saturating_add(area.height.saturating_sub(h) / 2),
        width: w,
        height: h,
    }
}

/// The popup lies inside an area that is large enough for it.
pub proof fn lemma_popup_lies_inside(area: Area, rows: int)
    requires
        rows >= 0,
        area.width >= 1,
        area.height >= 1,
        area.x + area.width <= u16::MAX,
        area.y + area.height <= u16::MAX,
    ensures
        area.x <= popup(area, rows).x,
        popup(area, rows).x + popup(area, rows).width <= area.x + area.width,
        area.y <= popup(area, rows).y,
        popup(area, rows).y + popup(area, rows).height <= area.y + area.height,
{
}

/// The columns of a line.
pub open spec fn line_columns(spans: Seq<SpanView>, n: int) -> int
    decreases n,
{
    if n <= 0 {
        0
    } else {
        line_columns(spans, n - 1) + columns(spans[n - 1].text)
    }
}

/// The rows that a line takes when it is wrapped: one at least.
pub open spec fn wrapped_rows(spans: Seq<SpanView>, width: int) -> int {
    let w = line_columns(spans, spans.len() as int);
    if w <= width {
        1
    } else {
        (w - 1) / width + 1
    }
}

/// Rendered rows a line occupies when word-wrapped to `max` columns (at least 1).
pub fn line_rows(line: &Line, max: usize) -> (rows: u128)
    requires
        max >= 1,
    ensures
        rows == wrapped_rows(line@, max as int),
        rows <= 0xffff_ffff_ffff_fffe_0000_0000_0000_0001,
{
    let mut w: u128 = 0;
    let mut i: usize = 0;
    while i < line.spans.len()
        invariant
            i <= line.spans@.len(),
            w == line_columns(line@, i as int),
            w <= i * 0xffff_ffff_ffff_ffff,
        decreases line.spans@.len() - i,
    {
        let one: usize = width(line.spans[i].text.as_str());
        assert(line@[i as int].text == line.spans@[i as int].text@);
        proof {
            assert((i + 1) * 0xffff_ffff_ffff_ffff <= 0xffff_ffff_ffff_fffe_0000_0000_0000_0001)
                by (nonlinear_arith)
                requires
                    i + 1 <= 0xffff_ffff_ffff_ffff,
            ;
            assert((i + 1) * 0xffff_ffff_ffff_ffff == i * 0xffff_ffff_ffff_ffff
                + 0xffff_ffff_ffff_ffff) by (nonlinear_arith);
        }
        w = w + one as u128;
        i += 1;
    }
    proof {
        assert(i * 0xffff_ffff_ffff_ffff <= 0xffff_ffff_ffff_fffe_0000_0000_0000_0001)
            by (nonlinear_arith)
            requires
                i <= 0xffff_ffff_ffff_ffff,
        ;
    }
    if w <= max as u128 {
        1
    } else {
        let rows: u128 = (w - 1) / max as u128 + 1;
        proof {
            assert((w - 1) / max as int <= w - 1) by (nonlinear_arith)
                requires
                    w >= 1,
                    max >= 1,
            ;
        }
        rows
    }
}

/// How many of the first `n` lines, from the last on, fit a height behind some rows.
pub open spec fn fitting(lines: Seq<Seq<SpanView>>, width: int, height: int, n: int, rows: int) -> int
    decreases n,
{
    if n <= 0 {
        0
    } else {
        let r = rows + wrapped_rows(lines[n - 1], width);
        if r > height {
            0
        } else {
            1 + fitting(lines, width, height, n - 1, r)
        }
    }
}

/// The last line that wrapped lines can be scrolled to, so that the end stays reachable.
pub open spec fn last_line(lines: Seq<Seq<SpanView>>, width: int, height: int) -> int {
    let h = if height == 0 {
        1
    } else {
        height
    };
    let fit = fitting(lines, width, h, lines.len() as int, 0);
    let keep = if fit == 0 {
        1
    } else {
        fit
    };
    if lines.len() < keep {
        0
    } else {
        lines.len() - keep
    }
}

/// How many lines, from the last on, fit a height.
fn count_fitting(lines: &Vec<Line>, max: usize, height: usize) -> (fit: usize)
    requires
        max >= 1,
    ensures
        fit == fitting(
            line_views(lines@),
            max as int,
            height as int,
            lines@.len() as int,
            0,
        ),
        fit <= lines@.len(),
{
    let ghost v = line_views(lines@);
    let mut rows: u128 = 0;
    let mut fit: usize = 0;
    let count: usize = lines.len();
    let mut n: usize = count;
    while n > 0
        invariant
            count == lines@.len(),
            n + fit == count,
            max >= 1,
            v == line_views(lines@),
            rows <= height,
            fitting(v, max as int, height as int, lines@.len() as int, 0) == fit + fitting(
                v,
                max as int,
                height as int,
                n as int,
                rows as int,
            ),
        decreases n,
    {
        assert(v[n - 1] == lines@[n - 1]@);
        let r: u128 = rows + line_rows(&lines[n - 1], max);
        if r > height as u128 {
            return fit;
        }
        rows = r;
        fit += 1;
        n -= 1;
    }
    fit
}

/// The line that the guide is scrolled to: not past the last that keeps its end reachable.
pub fn guide_scroll(lines: &Vec<Line>, scroll: usize, max: usize, height: usize) -> (to: usize)
    requires
        max >= 1,
    ensures
        to == least(scroll as int, last_line(line_views(lines@), max as int, height as int)),
{
    let h: usize = if height == 0 {
        1
    } else {
        height
    };
    let fit: usize = count_fitting(lines, max, h);
    let keep: usize = if fit == 0 {
        1
    } else {
        fit
    };
    let last: usize = lines.len().saturating_sub(keep);
    if scroll < last {
        scroll
    } else {
        last
    }
}

/// The lines from a line on that fit a height.
pub open spec fn windowed(lines: Seq<Seq<SpanView>>, scroll: int, height: int) -> Seq<
    Seq<SpanView>,
> {
    let start = least(scroll, lines.len() as int);
    lines.subrange(start, least(start + height, lines.len() as int))
}

/// The slice of `lines` currently within the viewport.
pub fn window(lines: &Vec<Line>, scroll: usize, height: usize) -> (out: Vec<Line>)
    ensures
        line_views(out@) == windowed(line_views(lines@), scroll as int, height as int),
{
    let len: usize = lines.len();
    let start: usize = if scroll < len {
        scroll
    } else {
        len
    };
    let end: usize = if height < len - start {
        start + height
    } else {
        len
    };
    let mut out: Vec<Line> = Vec::new();
    let mut i: usize = start;
    while i < end
        invariant
            start <= i <= end <= lines@.len(),
            out@.len() == i - start,
            forall|k: int| 0 <= k < i - start ==> (#[trigger] out@[k])@ == lines@[start + k]@,
        decreases end - i,
    {
        out.push(lines[i].copy());
        i += 1;
    }
    assert(line_views(out@) =~= windowed(line_views(lines@), scroll as int, height as int));
    out
}

// --- the list that is open over the document ---

/// A row of the list that is open over the document.
#[derive(Debug)]
pub struct PickerRow {
    pub text: String,
    pub selected: bool,
}

/// What a [`PickerRow`] says.
pub struct PickerRowView {
    pub text: Seq<char>,
    pub selected: bool,
}

impl View for PickerRow {
    type V = PickerRowView;

    open spec fn view(&self) -> PickerRowView {
        PickerRowView { text: self.text@, selected: self.selected }
    }
}

/// The list that is open over the document.
#[derive(Debug)]
pub struct PickerPage {
    pub title: String,
    pub rows: Vec<PickerRow>,
}

/// What a [`PickerPage`] says.
pub struct PickerPageView {
    pub title: Seq<char>,
    pub rows: Seq<PickerRowView>,
}

/// What the rows of a list say.
pub open spec fn picker_rows(rows: Seq<PickerRow>) -> Seq<PickerRowView> {
    rows.map_values(|r: PickerRow| r@)
}

impl View for PickerPage {
    type V = PickerPageView;

    open spec fn view(&self) -> PickerPageView {
        PickerPageView { title: self.title@, rows: picker_rows(self.rows@) }
    }
}

/// A command, with its keys in a column of their own.
pub open spec fn command_row(item: PaletteItem) -> PickerRowView {
    PickerRowView {
        text: padded(item.action.label_text(), 32) + item.action.shortcut_text(),
        selected: item.selected,
    }
}

/// A heading, indented by its level.
pub open spec fn heading_row(item: OutlineItemView) -> PickerRowView {
    PickerRowView { text: spaces(2 * (item.level - 1)) + item.title, selected: item.selected }
}

/// A diagnostic, behind the number of its line.
pub open spec fn diagnostic_row(item: DiagnosticItemView) -> PickerRowView {
    PickerRowView {
        text: decimal(least(item.line + 1, usize::MAX as int) as nat) + ": "@ + item.message,
        selected: item.selected,
    }
}

/// A recent file, by its path.
pub open spec fn recent_row(item: RecentItemView) -> PickerRowView {
    PickerRowView { text: item.path, selected: item.selected }
}

/// The list that is open over the document, if one is: what was typed, and what it leaves to
/// choose from.
pub open spec fn picker(v: AppView) -> Option<PickerPageView> {
    if let Some(p) = v.palette {
        Some(
            PickerPageView {
                title: "Commands: "@ + p.query,
                rows: v.palette_lines().map_values(|i: PaletteItem| command_row(i)),
            },
        )
    } else if let Some(p) = v.outline {
        let items = outline_lines(
            v.editor.with_blocks().headings(),
            p.query,
            p.selected,
            v.editor.cursor_line(),
        );
        Some(
            PickerPageView {
                title: "Outline: "@ + p.query,
                rows: items.map_values(|i: OutlineItemView| heading_row(i)),
            },
        )
    } else if v.diagnostics is Some {
        Some(
            PickerPageView {
                title: "Diagnostics"@,
                rows: v.diagnostic_lines().map_values(|i: DiagnosticItemView| diagnostic_row(i)),
            },
        )
    } else if let Some(p) = v.recent_picker {
        Some(
            PickerPageView {
                title: "Recent files: "@ + p.query,
                rows: v.recent_lines().map_values(|i: RecentItemView| recent_row(i)),
            },
        )
    } else {
        None
    }
}

/// The rows of the commands.
fn command_rows(items: &Vec<PaletteItem>) -> (rows: Vec<PickerRow>)
    ensures
        picker_rows(rows@) == items@.map_values(|i: PaletteItem| command_row(i)),
{
    let mut rows: Vec<PickerRow> = Vec::new();
    let mut i: usize = 0;
    while i < items.len()
        invariant
            i <= items@.len(),
            rows@.len() == i,
            forall|k: int| 0 <= k < i ==> (#[trigger] rows@[k])@ == command_row(items@[k]),
        decreases items@.len() - i,
    {
        let mut text = pad_right(items[i].action.label(), 32);
        text.append(items[i].action.shortcut());
        rows.push(PickerRow { text, selected: items[i].selected });
        i += 1;
    }
    assert(picker_rows(rows@) =~= items@.map_values(|i: PaletteItem| command_row(i)));
    rows
}

/// The rows of the outline.
fn heading_rows(items: &Vec<OutlineItem>) -> (rows: Vec<PickerRow>)
    ensures
        picker_rows(rows@) == outline_views(items@).map_values(
            |i: OutlineItemView| heading_row(i),
        ),
{
    let mut rows: Vec<PickerRow> = Vec::new();
    let mut i: usize = 0;
    while i < items.len()
        invariant
            i <= items@.len(),
            rows@.len() == i,
            forall|k: int| 0 <= k < i ==> (#[trigger] rows@[k])@ == heading_row(items@[k]@),
        decreases items@.len() - i,
    {
        let mut text = String::new();
        let n: usize = items[i].level.saturating_sub(1);
        assert(spaces(0) =~= text@);
        push_repeated(&mut text, ' ', n);
        push_repeated(&mut text, ' ', n);
        assert(text@ =~= spaces(2 * (items@[i as int].level - 1)));
        text.append(items[i].title.as_str());
        rows.push(PickerRow { text, selected: items[i].selected });
        i += 1;
    }
    assert(picker_rows(rows@) =~= outline_views(items@).map_values(
        |i: OutlineItemView| heading_row(i),
    ));
    rows
}

/// The rows of the diagnostics.
fn diagnostic_rows(items: &Vec<DiagnosticItem>) -> (rows: Vec<PickerRow>)
    ensures
        picker_rows(rows@) == items@.map_values(|i: DiagnosticItem| i@).map_values(
            |i: DiagnosticItemView| diagnostic_row(i),
        ),
{
    let mut rows: Vec<PickerRow> = Vec::new();
    let mut i: usize = 0;
    while i < items.len()
        invariant
            i <= items@.len(),
            rows@.len() == i,
            forall|k: int| 0 <= k < i ==> (#[trigger] rows@[k])@ == diagnostic_row(items@[k]@),
        decreases items@.len() - i,
    {
        let mut text = decimal_string(items[i].line.saturating_add(1));
        text.append(": ");
        text.append(items[i].message.as_str());
        rows.push(PickerRow { text, selected: items[i].selected });
        i += 1;
    }
    assert(picker_rows(rows@) =~= items@.map_values(|i: DiagnosticItem| i@).map_values(
        |i: DiagnosticItemView| diagnostic_row(i),
    ));
    rows
}

/// The rows of the recent files.
fn recent_rows(items: &Vec<RecentItem>) -> (rows: Vec<PickerRow>)
    ensures
        picker_rows(rows@) == items@.map_values(|i: RecentItem| i@).map_values(
            |i: RecentItemView| recent_row(i),
        ),
{
    let mut rows: Vec<PickerRow> = Vec::new();
    let mut i: usize = 0;
    while i < items.len()
        invariant
            i <= items@.len(),
            rows@.len() == i,
            forall|k: int| 0 <= k < i ==> (#[trigger] rows@[k])@ == recent_row(items@[k]@),
        decreases items@.len() - i,
    {
        rows.push(
            PickerRow { text: items[i].path.as_str().to_owned(), selected: items[i].selected },
        );
        i += 1;
    }
    assert(picker_rows(rows@) =~= items@.map_values(|i: RecentItem| i@).map_values(
        |i: RecentItemView| recent_row(i),
    ));
    rows
}

/// The list that is open over the document, if one is. The outline is read from the blocks of
/// the document, which are brought up to date for it.
#[verifier::spinoff_prover]
pub fn open_picker(app: &mut App) -> (page: Option<PickerPage>)
    requires
        old(app).wf(),
    ensures
        final(app).wf(),
        final(app)@ == if old(app)@.palette is None && old(app)@.outline is Some {
            old(app)@.with_editor(old(app)@.editor.with_blocks())
        } else {
            old(app)@
        },
        match page {
            Some(p) => picker(old(app)@) == Some(p@),
            None => picker(old(app)@) is None,
        },
{
    if app.palette_open() {
        let title = joined("Commands: ", app.palette_query());
        let rows = command_rows(&app.palette_items());
        Some(PickerPage { title, rows })
    } else if app.outline_open() {
        let title = joined("Outline: ", app.outline_query());
        let items = app.outline_items();
        let rows = heading_rows(&items);
        Some(PickerPage { title, rows })
    } else if app.diagnostics_open() {
        let rows = diagnostic_rows(&app.diagnostic_items());
        Some(PickerPage { title: "Diagnostics".to_owned(), rows })
    } else if app.recent_picker_open() {
        let title = joined("Recent files: ", app.recent_query());
        let rows = recent_rows(&app.recent_items());
        Some(PickerPage { title, rows })
    } else {
        None
    }
}

/// The first row from `i` on that is selected; the first of all, if none is.
pub open spec fn picked_row(rows: Seq<PickerRowView>, i: int) -> int
    decreases rows.len() - i,
{
    if i < 0 || i >= rows.len() {
        0
    } else if rows[i].selected {
        i
    } else {
        picked_row(rows, i + 1)
    }
}

/// How a row is drawn.
pub open spec fn picker_line(row: PickerRowView, theme: MarkdownTheme) -> Seq<SpanView> {
    seq![
        shown(
            row.text,
            if row.selected {
                theme.keyword_note
            } else {
                theme.text
            },
        ),
    ]
}

/// The rows that are drawn in a height: the first ones, or as many as end with the row that
/// is selected.
pub open spec fn picker_window(
    rows: Seq<PickerRowView>,
    theme: MarkdownTheme,
    height: int,
) -> Seq<Seq<SpanView>> {
    let first = picked_row(rows, 0) + 1 - height;
    windowed(
        rows.map_values(|r: PickerRowView| picker_line(r, theme)),
        if first < 0 {
            0
        } else {
            first
        },
        height,
    )
}

/// The rows that are drawn in a height.
pub fn picker_lines(page: &PickerPage, theme: &MarkdownTheme, height: usize) -> (out: Vec<Line>)
    ensures
        line_views(out@) == picker_window(page@.rows, *theme, height as int),
{
    let rows = &page.rows;
    let ghost seen = page@.rows;
    let mut lines: Vec<Line> = Vec::new();
    let mut picked: usize = 0;
    let mut found = false;
    let mut i: usize = 0;
    while i < rows.len()
        invariant
            rows == &page.rows,
            seen == page@.rows,
            i <= rows@.len(),
            lines@.len() == i,
            forall|k: int| 0 <= k < i ==> (#[trigger] lines@[k])@ == picker_line(seen[k], *theme),
            found ==> picked == picked_row(seen, 0) && picked < rows@.len(),
            !found ==> picked == 0 && picked_row(seen, 0) == picked_row(seen, i as int),
        decreases rows@.len() - i,
    {
        assert(seen[i as int] == rows@[i as int]@);
        let selected = rows[i].selected;
        if selected && !found {
            picked = i;
            found = true;
        }
        let style = if selected {
            theme.keyword_note
        } else {
            theme.text
        };
        lines.push(Line::of(Span::styled(rows[i].text.as_str().to_owned(), style)));
        i += 1;
    }
    assert(line_views(lines@) =~= seen.map_values(|r: PickerRowView| picker_line(r, *theme)));
    let first: usize = if picked >= height {
        picked - height + 1
    } else {
        0
    };
    window(&lines, first, height)
}

// --- the cursor ---

/// Where the cursor is drawn in an area, unless it is scrolled out of view. At the end of an
/// exactly-full row it stays inside the area instead of spilling past its edge.
pub open spec fn cursor_place(v: AppView, page: Live, area: Area) -> Option<(u16, u16)> {
    let col = v.editor.layout().position(v.editor.cursor.byte as int).1;
    let y = v.cursor_row(page) - v.desk.scroll_y;
    if y < 0 || y >= area.height {
        None
    } else {
        Some(
            (
                area.x.saturating_add(
                    least(col, area.width.saturating_sub(1) as int) as u16,
                ),
                area.y.saturating_add(y as u16),
            ),
        )
    }
}

/// Where the cursor is drawn in an area, unless it is scrolled out of view.
#[verifier::spinoff_prover]
pub fn cursor_position(app: &mut App, view: &LiveView, area: Area) -> (place: Option<(u16, u16)>)
    requires
        old(app).wf(),
    ensures
        final(app).wf(),
        final(app)@ == old(app)@,
        place == cursor_place(old(app)@, view@, area),
{
    let (col, row) = app.cursor_screen(view);
    let top: usize = app.desk().scroll_y;
    if row < top || row - top >= area.height as usize {
        return None;
    }
    let y: u16 = (row - top) as u16;
    let edge: u16 = area.width.saturating_sub(1);
    let x: u16 = if col < edge {
        col
    } else {
        edge
    };
    Some((area.x.saturating_add(x), area.y.saturating_add(y)))
}

/// The columns of the left margin: at least one column is left for the content.
pub open spec fn margin_columns(margin: usize, width: u16) -> u16 {
    least(margin as int, width.saturating_sub(1) as int) as u16
}

/// The columns of the left margin: at least one column is left for the content.
pub fn margin_width(margin: usize, width: u16) -> (columns: u16)
    ensures
        columns == margin_columns(margin, width),
{
    let max: u16 = width.saturating_sub(1);
    if margin < max as usize {
        margin as u16
    } else {
        max
    }
}

/// The badge names the mode: the settings and the preview first, then the source as it is,
/// then the rows of a table, and else the mode of the keys.
pub proof fn lemma_the_badge_names_the_mode(v: AppView)
    ensures
        badge(v).0 == if v.desk.menu is Some {
            "MENU"@
        } else if v.desk.mode == Mode::Read {
            "READ"@
        } else if v.desk.raw_view {
            "RAW"@
        } else if v.desk.table_mode {
            "TABLE"@
        } else if v.desk.mode == Mode::Normal {
            "NORMAL"@
        } else if v.desk.mode == Mode::Visual {
            "VISUAL"@
        } else {
            "INSERT"@
        },
{
}

/// While the document is edited and there is nothing to say, the status bar tells the line
/// and the column of the cursor, counted from one; what there is to say is said instead.
pub proof fn lemma_the_status_tells_the_place(v: AppView, line: int, col: int)
    requires
        v.desk.menu is None,
        v.desk.mode != Mode::Read,
        line == v.editor.cursor_line(),
        col == v.editor.layout().position(v.editor.cursor.byte as int).1,
    ensures
        v.status is None ==> status_right(v, None).0 == "Ln "@ + decimal((line + 1) as nat)
            + ", Col "@ + decimal((col + 1) as nat) + "   ^G menu · ^S save · ^Q quit "@,
        v.status is Some ==> status_right(v, None).0 == v.status->0 + " "@,
{
}

/// Where it fits, the status bar shows the mode, the name of the file, whether it has
/// unsaved changes, and at the right end what there is to say; it is as wide as the screen.
pub proof fn lemma_the_status_bar_shows_the_file(v: AppView, max: int)
    requires
        ({
            let flag = if v.editor.doc.modified {
                " [+]"@
            } else {
                ""@
            };
            columns(" "@ + badge(v).0 + " "@) + columns(" "@ + v.editor.doc.shown_name()) + columns(
                flag,
            ) + columns(status_right(v, None).0) <= max <= usize::MAX
        }),
    ensures
        ({
            let bar = status_bar(v, max, None);
            &&& bar.len() == 5
            &&& bar[0].text == " "@ + badge(v).0 + " "@
            &&& bar[1].text == " "@ + v.editor.doc.shown_name()
            &&& v.editor.doc.modified ==> bar[2].text == " [+]"@
            &&& !v.editor.doc.modified ==> bar[2].text == ""@
            &&& bar[3].text == repeated(
                ' ',
                max - columns(bar[0].text) - columns(bar[1].text) - columns(bar[2].text) - columns(
                    bar[4].text,
                ),
            )
            &&& bar[4].text == status_right(v, None).0
        }),
{
}

/// The cursor is drawn in its column and row below the top of what is shown, inside the area,
/// and not at all where its row is not shown.
pub proof fn lemma_the_cursor_is_drawn_in_its_place(v: AppView, page: Live, area: Area, col: int, row: int)
    requires
        col == v.editor.layout().position(v.editor.cursor.byte as int).1,
        row == v.cursor_row(page),
        0 <= col,
        area.x + area.width <= u16::MAX,
        area.y + area.height <= u16::MAX,
        area.width > 0,
    ensures
        v.desk.scroll_y <= row < v.desk.scroll_y + area.height && col < area.width ==> cursor_place(
            v,
            page,
            area,
        ) == Some(((area.x + col) as u16, (area.y + row - v.desk.scroll_y) as u16)),
        v.desk.scroll_y <= row < v.desk.scroll_y + area.height && col >= area.width ==> cursor_place(
            v,
            page,
            area,
        ) == Some(((area.x + area.width - 1) as u16, (area.y + row - v.desk.scroll_y) as u16)),
        row < v.desk.scroll_y || row >= v.desk.scroll_y + area.height ==> cursor_place(v, page, area)
            is None,
{
}

} // verus!
