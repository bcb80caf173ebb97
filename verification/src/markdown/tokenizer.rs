//! Lossless source highlighting for the active (raw) block.
//!
//! The block's raw source is scanned directly and a [`Style`] assigned to **every
//! byte**: markers (`#`, `**`, backticks, link brackets…) get the dim marker
//! style, content gets the matching emphasis/heading/code style. Because it only
//! assigns styles and never rewrites bytes, the rendered raw block always
//! reproduces the source exactly, which keeps the cursor's byte↔column mapping
//! valid.

use vstd::prelude::*;
use vstd::utf8::*;

use super::theme::MarkdownTheme;
use crate::bytes::{
    boundary, is_at, lemma_boundary_at_ascii, lemma_boundary_ends, lemma_run_of, run_len, run_of,
    slice, stands_at, text_between,
};
use crate::strings::{is_white_space, to_chars, white_space};
use crate::style::Style;

verus! {

/// Whether `c` is a letter or a digit of any script.
pub uninterp spec fn alphanumeric(c: char) -> bool;

/// `char::is_alphanumeric` depends on the character alone; what counts as a letter
/// or a digit is left to the Unicode tables.
pub assume_specification[ char::is_alphanumeric ](c: char) -> (yes: bool)
    ensures
        yes == alphanumeric(c),
;

/// The fence that opened a code block.
#[derive(Clone, Copy, Debug, PartialEq, Eq, Structural)]
pub struct Fence {
    /// The fence character.
    pub ch: u8,
    /// The length of the opening run.
    pub run: usize,
}

/// Whether the text is between the delimiters of a fenced code block, and which
/// fence opened it.
#[derive(Clone, Copy, Debug, PartialEq, Eq, Structural)]
pub struct FenceState {
    /// The opening fence, inside a block.
    pub open: Option<Fence>,
}

impl FenceState {
    /// Outside of any fenced block.
    pub open spec fn outside() -> FenceState {
        FenceState { open: None }
    }

    /// Outside of any fenced block.
    #[verifier::when_used_as_spec(outside)]
    pub fn new() -> (s: FenceState)
        ensures
            s == FenceState::outside(),
    {
        FenceState { open: None }
    }

    /// Whether the text is code.
    pub fn is_inside(&self) -> (inside: bool)
        ensures
            inside == (self.open is Some),
    {
        self.open.is_some()
    }
}

/// The length of a line without its line ending.
pub open spec fn content_end(line: Seq<u8>) -> int
    decreases line.len(),
{
    if line.len() > 0 && (line.last() == 10 || line.last() == 13) {
        content_end(line.drop_last())
    } else {
        line.len() as int
    }
}

/// The number of spaces and tabs at the beginning of a line.
pub open spec fn indent_of(line: Seq<u8>) -> int
    decreases line.len(),
{
    if line.len() > 0 && (line[0] == 32 || line[0] == 9) {
        1 + indent_of(line.skip(1))
    } else {
        0
    }
}

/// Whether every character is white space.
pub open spec fn all_white(text: Seq<char>) -> bool {
    forall|i: int| 0 <= i < text.len() ==> white_space(#[trigger] text[i])
}

/// The fence character, the length of its run, and whether nothing but white space
/// follows, where a line begins with three or more backticks or tildes after
/// optional indentation.
pub open spec fn delimiter(line: Seq<u8>) -> Option<(u8, int, bool)> {
    let a = indent_of(line);
    let e = content_end(line);
    if a < e && (line[a] == 96 || line[a] == 126) {
        let run = run_of(line, a, e, line[a]);
        if run >= 3 {
            Some((line[a], run, all_white(text_between(line, a + run, e))))
        } else {
            None
        }
    } else {
        None
    }
}

/// Whether a line closes the block that `state` is in: the same character, at least
/// the opening run, nothing after it.
pub open spec fn closes(line: Seq<u8>, state: FenceState) -> bool {
    match (state.open, delimiter(line)) {
        (Some(open), Some((ch, run, bare))) => ch == open.ch && run >= open.run && bare,
        _ => false,
    }
}

/// The state after a line.
pub open spec fn after_line(line: Seq<u8>, state: FenceState) -> FenceState {
    if state.open is Some {
        if closes(line, state) {
            FenceState::outside()
        } else {
            state
        }
    } else {
        match delimiter(line) {
            Some((ch, run, _)) => FenceState { open: Some(Fence { ch, run: run as usize }) },
            None => state,
        }
    }
}

/// `n` times the same style.
pub open spec fn repeated(s: Style, n: int) -> Seq<Style> {
    Seq::new(
        if n < 0 {
            0
        } else {
            n as nat
        },
        |i: int| s,
    )
}

/// The styles with those of `[from, to)` replaced.
pub open spec fn painted(styles: Seq<Style>, from: int, to: int, s: Style) -> Seq<Style> {
    Seq::new(
        styles.len(),
        |i: int|
            if from <= i < to {
                s
            } else {
                styles[i]
            },
    )
}

/// The position of the next `c` in `b[from..end]`.
pub open spec fn next_byte(b: Seq<u8>, from: int, end: int, c: u8) -> Option<int>
    decreases end - from,
{
    if from >= end {
        None
    } else if b[from] == c {
        Some(from)
    } else {
        next_byte(b, from + 1, end, c)
    }
}

/// The position of the next run of exactly `len` times `c` in `b[from..end]`.
pub open spec fn next_run(b: Seq<u8>, from: int, end: int, c: u8, len: int) -> Option<int>
    decreases end - from,
{
    if from >= end {
        None
    } else if b[from] != c {
        next_run(b, from + 1, end, c, len)
    } else if run_of(b, from, end, c) == len {
        Some(from)
    } else if 1 <= run_of(b, from, end, c) <= end - from {
        next_run(b, from + run_of(b, from, end, c), end, c, len)
    } else {
        None
    }
}

/// The position of the parenthesis that closes `depth` open ones, from `j` on.
pub open spec fn closing_paren(b: Seq<u8>, j: int, end: int, depth: int) -> Option<int>
    decreases end - j,
{
    if j >= end {
        None
    } else if b[j] == 40 {
        closing_paren(b, j + 1, end, depth + 1)
    } else if b[j] == 41 {
        if depth == 1 {
            Some(j)
        } else {
            closing_paren(b, j + 1, end, depth - 1)
        }
    } else {
        closing_paren(b, j + 1, end, depth)
    }
}

/// Whether `c` belongs to a word.
pub open spec fn word_char(c: char) -> bool {
    alphanumeric(c) || c == '_'
}

/// Whether a single `_` at byte `at` can act as emphasis: not where it has word
/// characters on both sides.
pub open spec fn underscore_emphasizes(line: Seq<u8>, at: int) -> bool {
    let before = text_between(line, 0, at);
    let after = text_between(line, at + 1, line.len() as int);
    !(before.len() > 0 && word_char(before.last()) && after.len() > 0 && word_char(after[0]))
}

/// The base style with the emphasis that is on.
pub open spec fn with_emphasis(base: Style, bold: bool, italic: bool, strike: bool) -> Style {
    let b = if bold {
        base.with_bold()
    } else {
        base
    };
    let i = if italic {
        b.with_italic()
    } else {
        b
    };
    if strike {
        i.with_crossed_out()
    } else {
        i
    }
}

/// One step of the inline scanner: the styles it gives, where it goes on, and the
/// emphasis that is on from there.
pub struct Step {
    pub styles: Seq<Style>,
    pub next: int,
    pub bold: bool,
    pub italic: bool,
    pub strike: bool,
}

/// The step of the inline scanner at `line[i]`: a code span with its backticks, a
/// link with its target, an emphasis marker, or a single byte.
pub open spec fn inline_step(
    line: Seq<u8>,
    i: int,
    end: int,
    bold: bool,
    italic: bool,
    strike: bool,
    t: MarkdownTheme,
) -> Step {
    let plain = Step { styles: seq![t.text], next: i + 1, bold, italic, strike };
    let double = i + 1 < end && line[i + 1] == line[i];
    if line[i] == 96 {
        let run = run_of(line, i, end, 96);
        match next_run(line, i + run, end, 96, run) {
            Some(close) => Step {
                styles: repeated(t.marker, run) + repeated(t.code_inline, close - i - run)
                    + repeated(t.marker, run),
                next: close + run,
                ..plain
            },
            None => plain,
        }
    } else if (line[i] == 42 || line[i] == 95) && double {
        Step { styles: repeated(t.marker, 2), next: i + 2, bold: !bold, ..plain }
    } else if line[i] == 42 || (line[i] == 95 && underscore_emphasizes(line, i)) {
        Step { styles: seq![t.marker], italic: !italic, ..plain }
    } else if line[i] == 126 && double {
        Step { styles: repeated(t.marker, 2), next: i + 2, strike: !strike, ..plain }
    } else if line[i] == 91 {
        match next_byte(line, i + 1, end, 93) {
            Some(rb) => {
                let link = seq![t.marker] + repeated(t.link, rb - i - 1) + seq![t.marker];
                let target = if rb + 1 < end && line[rb + 1] == 40 {
                    closing_paren(line, rb + 1, end, 0)
                } else {
                    None
                };
                match target {
                    Some(rp) => Step {
                        styles: link + repeated(t.marker, rp - rb),
                        next: rp + 1,
                        ..plain
                    },
                    None => Step { styles: link, next: rb + 1, ..plain },
                }
            },
            None => plain,
        }
    } else {
        Step { styles: seq![with_emphasis(t.text, bold, italic, strike)], ..plain }
    }
}

/// The styles of the inline markdown in `line[i..end]`.
pub open spec fn inline_styles(
    line: Seq<u8>,
    i: int,
    end: int,
    bold: bool,
    italic: bool,
    strike: bool,
    t: MarkdownTheme,
) -> Seq<Style>
    decreases end - i,
{
    let s = inline_step(line, i, end, bold, italic, strike, t);
    if i < end && i < s.next <= end {
        s.styles + inline_styles(line, s.next, end, s.bold, s.italic, s.strike, t)
    } else {
        Seq::empty()
    }
}

/// Whether `b` is an ASCII letter, a digit or an underscore.
pub open spec fn word_byte(b: u8) -> bool {
    48 <= b <= 57 || 65 <= b <= 90 || 97 <= b <= 122 || b == 95
}

/// Whether `word` stands at `at`, ends by `end` and has no word character after it.
pub open spec fn keyword_is(line: Seq<u8>, at: int, end: int, word: Seq<char>) -> bool {
    let stop = at + encode_utf8(word).len();
    stop <= end && stands_at(line, at, encode_utf8(word)) && (stop >= line.len() || !word_byte(
        line[stop],
    ))
}

/// The badge word at `at` and its style: where it ends, in the order in which the
/// words are tried.
pub open spec fn keyword(line: Seq<u8>, at: int, end: int, t: MarkdownTheme) -> Option<
    (int, Style),
> {
    if at > 0 && word_byte(line[at - 1]) {
        None
    } else if keyword_is(line, at, end, "IMPORTANT"@) {
        Some((at + encode_utf8("IMPORTANT"@).len(), t.keyword_misc))
    } else if keyword_is(line, at, end, "WARNING"@) {
        Some((at + encode_utf8("WARNING"@).len(), t.keyword_warn))
    } else if keyword_is(line, at, end, "FIXME"@) {
        Some((at + encode_utf8("FIXME"@).len(), t.keyword_error))
    } else if keyword_is(line, at, end, "ERROR"@) {
        Some((at + encode_utf8("ERROR"@).len(), t.keyword_error))
    } else if keyword_is(line, at, end, "WARN"@) {
        Some((at + encode_utf8("WARN"@).len(), t.keyword_warn))
    } else if keyword_is(line, at, end, "TODO"@) {
        Some((at + encode_utf8("TODO"@).len(), t.keyword_note))
    } else if keyword_is(line, at, end, "NOTE"@) {
        Some((at + encode_utf8("NOTE"@).len(), t.keyword_note))
    } else if keyword_is(line, at, end, "HACK"@) {
        Some((at + encode_utf8("HACK"@).len(), t.keyword_misc))
    } else {
        None
    }
}

/// The styles with every badge word of `line[i..end]` in its own.
pub open spec fn with_keywords(
    line: Seq<u8>,
    i: int,
    end: int,
    styles: Seq<Style>,
    t: MarkdownTheme,
) -> Seq<Style>
    decreases end - i,
{
    if i >= end {
        styles
    } else {
        match keyword(line, i, end, t) {
            Some((stop, s)) => if stop > i {
                with_keywords(line, stop, end, painted(styles, i, stop, s), t)
            } else {
                styles
            },
            None => with_keywords(line, i + 1, end, styles, t),
        }
    }
}

/// The length of a leading list marker (`- `, `* `, `+ `, `1. `, `2) `…) in
/// `line[a..e]`.
pub open spec fn marker_len(line: Seq<u8>, a: int, e: int) -> Option<int> {
    if e - a >= 2 && (line[a] == 45 || line[a] == 42 || line[a] == 43) && line[a + 1] == 32 {
        Some(2)
    } else {
        let d = digit_run(line, a, e);
        if d > 0 && e - a > d + 1 && (line[a + d] == 46 || line[a + d] == 41) && line[a + d + 1]
            == 32 {
            Some(d + 2)
        } else {
            None
        }
    }
}

/// The number of decimal digits at the beginning of `b[i..end]`.
pub open spec fn digit_run(b: Seq<u8>, i: int, end: int) -> int
    decreases end - i,
{
    if i < end && 48 <= b[i] <= 57 {
        1 + digit_run(b, i + 1, end)
    } else {
        0
    }
}

/// The styles of a line outside of fenced code, from `m` on inline markdown.
pub open spec fn inline_line(line: Seq<u8>, a: int, m: int, marker: Style, t: MarkdownTheme) -> Seq<
    Style,
> {
    let e = content_end(line);
    with_keywords(
        line,
        m,
        e,
        repeated(t.text, a) + repeated(marker, m - a) + inline_styles(
            line,
            m,
            e,
            false,
            false,
            false,
            t,
        ) + repeated(t.text, line.len() - e),
        t,
    )
}

/// The styles of a line outside of fenced code.
pub open spec fn line_styles(line: Seq<u8>, t: MarkdownTheme) -> Seq<Style> {
    let e = content_end(line);
    let a = indent_of(line);
    let hashes = run_of(line, a, e, 35);
    if 1 <= hashes <= 6 && a + hashes < e && line[a + hashes] == 32 {
        let m = a + hashes + 1;
        with_keywords(
            line,
            m,
            e,
            repeated(t.text, a) + repeated(t.marker, m - a) + repeated(
                t.heading_of(hashes as u8),
                e - m,
            ) + repeated(t.text, line.len() - e),
            t,
        )
    } else if a < e && line[a] == 62 {
        let m = if a + 1 < e && line[a + 1] == 32 {
            a + 2
        } else {
            a + 1
        };
        inline_line(line, a, m, t.quote_bar, t)
    } else if run_of(line, a, e, 96) >= 3 || run_of(line, a, e, 126) >= 3 {
        repeated(t.text, a) + repeated(t.marker, e - a) + repeated(t.text, line.len() - e)
    } else if marker_len(line, a, e) is Some {
        inline_line(line, a, a + marker_len(line, a, e)->0, t.list_marker, t)
    } else {
        inline_line(line, a, a, t.text, t)
    }
}

/// The styles of a line in the given state: interior lines of a fenced block are
/// code, not markdown.
pub open spec fn styles_in(line: Seq<u8>, state: FenceState, t: MarkdownTheme) -> Seq<Style> {
    if state.open is Some && !closes(line, state) {
        let e = content_end(line);
        repeated(t.code_inline, e) + repeated(t.text, line.len() - e)
    } else {
        line_styles(line, t)
    }
}

/// The length of the first line with its newline.
pub open spec fn first_line_len(src: Seq<u8>) -> int {
    match next_byte(src, 0, src.len() as int, 10) {
        Some(i) => i + 1,
        None => src.len() as int,
    }
}

/// One style per byte of `src`, which begins in the given state.
pub open spec fn highlighted(src: Seq<u8>, state: FenceState, t: MarkdownTheme) -> Seq<Style>
    decreases src.len(),
{
    if src.len() == 0 {
        Seq::empty()
    } else {
        let n = first_line_len(src);
        if 0 < n <= src.len() {
            styles_in(src.take(n), state, t) + highlighted(
                src.skip(n),
                after_line(src.take(n), state),
                t,
            )
        } else {
            Seq::empty()
        }
    }
}

/// The state after all lines of `src`.
pub open spec fn state_after(src: Seq<u8>, state: FenceState) -> FenceState
    decreases src.len(),
{
    if src.len() == 0 {
        state
    } else {
        let n = first_line_len(src);
        if 0 < n <= src.len() {
            state_after(src.skip(n), after_line(src.take(n), state))
        } else {
            state
        }
    }
}

pub proof fn lemma_next_byte(b: Seq<u8>, from: int, end: int, c: u8)
    ensures
        match next_byte(b, from, end, c) {
            Some(i) => from <= i < end && b[i] == c && forall|j: int| from <= j < i ==> b[j] != c,
            None => forall|j: int| from <= j < end ==> b[j] != c,
        },
    decreases end - from,
{
    if from < end && b[from] != c {
        lemma_next_byte(b, from + 1, end, c);
    }
}

proof fn lemma_next_byte_is(b: Seq<u8>, from: int, end: int, c: u8, i: int)
    requires
        from <= i < end,
        b[i] == c,
        forall|j: int| from <= j < i ==> b[j] != c,
    ensures
        next_byte(b, from, end, c) == Some(i),
    decreases i - from,
{
    if from < i {
        lemma_next_byte_is(b, from + 1, end, c, i);
    }
}

proof fn lemma_next_byte_none(b: Seq<u8>, from: int, end: int, c: u8)
    requires
        forall|j: int| from <= j < end ==> b[j] != c,
    ensures
        next_byte(b, from, end, c) is None,
    decreases end - from,
{
    if from < end {
        lemma_next_byte_none(b, from + 1, end, c);
    }
}

proof fn lemma_next_run(b: Seq<u8>, from: int, end: int, c: u8, len: int)
    requires
        len >= 1,
    ensures
        match next_run(b, from, end, c, len) {
            Some(i) => from <= i && i + len <= end,
            None => true,
        },
    decreases end - from,
{
    if from < end {
        lemma_run_of(b, from, end, c);
        if b[from] != c {
            lemma_next_run(b, from + 1, end, c, len);
        } else if run_of(b, from, end, c) != len {
            lemma_next_run(b, from + run_of(b, from, end, c), end, c, len);
        }
    }
}

proof fn lemma_closing_paren(b: Seq<u8>, j: int, end: int, depth: int)
    ensures
        match closing_paren(b, j, end, depth) {
            Some(i) => j <= i < end && b[i] == 41,
            None => true,
        },
    decreases end - j,
{
    if j < end {
        if b[j] == 40 {
            lemma_closing_paren(b, j + 1, end, depth + 1);
        } else if b[j] == 41 {
            if depth != 1 {
                lemma_closing_paren(b, j + 1, end, depth - 1);
            }
        } else {
            lemma_closing_paren(b, j + 1, end, depth);
        }
    }
}

proof fn lemma_inline_step(
    line: Seq<u8>,
    i: int,
    end: int,
    bold: bool,
    italic: bool,
    strike: bool,
    t: MarkdownTheme,
)
    requires
        i < end,
    ensures
        ({
            let s = inline_step(line, i, end, bold, italic, strike, t);
            i < s.next <= end && s.styles.len() == s.next - i
        }),
{
    lemma_run_of(line, i, end, line[i]);
    if line[i] == 96 {
        let run = run_of(line, i, end, 96);
        lemma_next_run(line, i + run, end, 96, run);
    } else if line[i] == 91 {
        lemma_next_byte(line, i + 1, end, 93);
        match next_byte(line, i + 1, end, 93) {
            Some(rb) => {
                lemma_closing_paren(line, rb + 1, end, 0);
            },
            None => {},
        }
    }
}

/// The inline scanner gives every byte one style.
pub proof fn lemma_inline_styles_cover(
    line: Seq<u8>,
    i: int,
    end: int,
    bold: bool,
    italic: bool,
    strike: bool,
    t: MarkdownTheme,
)
    requires
        i <= end,
    ensures
        inline_styles(line, i, end, bold, italic, strike, t).len() == end - i,
    decreases end - i,
{
    if i < end {
        lemma_inline_step(line, i, end, bold, italic, strike, t);
        let s = inline_step(line, i, end, bold, italic, strike, t);
        lemma_inline_styles_cover(line, s.next, end, s.bold, s.italic, s.strike, t);
    }
}

proof fn lemma_with_keywords_len(
    line: Seq<u8>,
    i: int,
    end: int,
    styles: Seq<Style>,
    t: MarkdownTheme,
)
    ensures
        with_keywords(line, i, end, styles, t).len() == styles.len(),
    decreases end - i,
{
    if i < end {
        match keyword(line, i, end, t) {
            Some((stop, s)) => {
                if stop > i {
                    lemma_with_keywords_len(line, stop, end, painted(styles, i, stop, s), t);
                }
            },
            None => {
                lemma_with_keywords_len(line, i + 1, end, styles, t);
            },
        }
    }
}

pub proof fn lemma_content_end(line: Seq<u8>)
    ensures
        0 <= content_end(line) <= line.len(),
        content_end(line) > 0 ==> line[content_end(line) - 1] != 10 && line[content_end(line) - 1]
            != 13,
        forall|i: int|
            content_end(line) <= i < line.len() ==> line[i] == 10 || line[i] == 13,
    decreases line.len(),
{
    if line.len() > 0 && (line.last() == 10 || line.last() == 13) {
        lemma_content_end(line.drop_last());
        let e = content_end(line);
        assert forall|i: int| e <= i < line.len() implies line[i] == 10 || line[i] == 13 by {
            if i < line.len() - 1 {
                assert(line.drop_last()[i] == line[i]);
            }
        }
    }
}

pub(crate) proof fn lemma_content_end_is(line: Seq<u8>, e: int)
    requires
        0 <= e <= line.len(),
        e > 0 ==> line[e - 1] != 10 && line[e - 1] != 13,
        forall|i: int| e <= i < line.len() ==> line[i] == 10 || line[i] == 13,
    ensures
        content_end(line) == e,
    decreases line.len(),
{
    if e < line.len() {
        lemma_content_end_is(line.drop_last(), e);
    }
}

proof fn lemma_indent_of_is(line: Seq<u8>, a: int)
    requires
        0 <= a <= line.len(),
        forall|i: int| 0 <= i < a ==> line[i] == 32 || line[i] == 9,
        a == line.len() || (line[a] != 32 && line[a] != 9),
    ensures
        indent_of(line) == a,
    decreases line.len(),
{
    if a > 0 {
        assert forall|i: int| 0 <= i < a - 1 implies line.skip(1)[i] == 32 || line.skip(1)[i]
            == 9 by {
            assert(line.skip(1)[i] == line[i + 1]);
        }
        lemma_indent_of_is(line.skip(1), a - 1);
    }
}

/// Indentation ends within the content of a line.
pub proof fn lemma_indent_of(line: Seq<u8>)
    ensures
        0 <= indent_of(line) <= content_end(line),
        forall|i: int| 0 <= i < indent_of(line) ==> line[i] == 32 || line[i] == 9,
        indent_of(line) < line.len() ==> line[indent_of(line)] != 32 && line[indent_of(line)] != 9,
{
    lemma_indent_prefix(line);
    lemma_content_end(line);
    let a = indent_of(line);
    let e = content_end(line);
    if a > e {
        assert(line[e] == 32 || line[e] == 9);
        assert(false);
    }
}

proof fn lemma_indent_prefix(line: Seq<u8>)
    ensures
        0 <= indent_of(line) <= line.len(),
        forall|i: int| 0 <= i < indent_of(line) ==> line[i] == 32 || line[i] == 9,
        indent_of(line) < line.len() ==> line[indent_of(line)] != 32 && line[indent_of(line)] != 9,
    decreases line.len(),
{
    if line.len() > 0 && (line[0] == 32 || line[0] == 9) {
        lemma_indent_prefix(line.skip(1));
        assert forall|i: int| 0 <= i < indent_of(line) implies line[i] == 32 || line[i] == 9 by {
            if i > 0 {
                assert(line.skip(1)[i - 1] == line[i]);
            }
        }
    }
}

/// A line outside of fenced code gets one style per byte.
proof fn lemma_line_styles_cover(line: Seq<u8>, t: MarkdownTheme)
    ensures
        line_styles(line, t).len() == line.len(),
{
    lemma_content_end(line);
    lemma_indent_of(line);
    let e = content_end(line);
    let a = indent_of(line);
    lemma_run_of(line, a, e, 35);
    lemma_digit_run(line, a, e);
    let hashes = run_of(line, a, e, 35);
    let m = a + hashes + 1;
    lemma_with_keywords_len(
        line,
        m,
        e,
        repeated(t.text, a) + repeated(t.marker, m - a) + repeated(
            t.heading_of(hashes as u8),
            e - m,
        ) + repeated(t.text, line.len() - e),
        t,
    );
    assert forall|m: int, s: Style| a <= m <= e implies (#[trigger] inline_line(
        line,
        a,
        m,
        s,
        t,
    )).len() == line.len() by {
        lemma_inline_styles_cover(line, m, e, false, false, false, t);
        lemma_with_keywords_len(
            line,
            m,
            e,
            repeated(t.text, a) + repeated(s, m - a) + inline_styles(
                line,
                m,
                e,
                false,
                false,
                false,
                t,
            ) + repeated(t.text, line.len() - e),
            t,
        );
    }
}

/// Highlighting is lossless: one style per byte, whatever the source and the state it
/// begins in.
pub proof fn lemma_highlighting_is_lossless(src: Seq<u8>, state: FenceState, t: MarkdownTheme)
    ensures
        highlighted(src, state, t).len() == src.len(),
    decreases src.len(),
{
    if src.len() > 0 {
        lemma_next_byte(src, 0, src.len() as int, 10);
        let n = first_line_len(src);
        lemma_line_styles_cover(src.take(n), t);
        lemma_content_end(src.take(n));
        lemma_highlighting_is_lossless(src.skip(n), after_line(src.take(n), state), t);
    }
}

proof fn lemma_first_line_of_concat(a: Seq<u8>, b: Seq<u8>)
    requires
        a.len() > 0,
        a.last() == 10,
    ensures
        first_line_len(a + b) == first_line_len(a),
        0 < first_line_len(a) <= a.len(),
{
    lemma_next_byte(a, 0, a.len() as int, 10);
    assert(a[a.len() - 1] == 10);
    let i = next_byte(a, 0, a.len() as int, 10)->0;
    assert((a + b)[i] == 10);
    lemma_next_byte_is(a + b, 0, (a + b).len() as int, 10, i);
}

/// Any window of whole lines is styled as in a scan of the whole source, given the
/// state at its beginning.
pub proof fn lemma_windows_style_like_the_whole(
    a: Seq<u8>,
    b: Seq<u8>,
    state: FenceState,
    t: MarkdownTheme,
)
    requires
        a.len() > 0 ==> a.last() == 10,
    ensures
        highlighted(a + b, state, t) == highlighted(a, state, t) + highlighted(
            b,
            state_after(a, state),
            t,
        ),
    decreases a.len(),
{
    if a.len() == 0 {
        assert(a + b =~= b);
        assert(highlighted(a, state, t) + highlighted(b, state, t) =~= highlighted(b, state, t));
    } else {
        lemma_first_line_of_concat(a, b);
        let n = first_line_len(a);
        assert((a + b).take(n) =~= a.take(n));
        assert((a + b).skip(n) =~= a.skip(n) + b);
        assert(a.skip(n).len() > 0 ==> a.skip(n).last() == a.last());
        let next = after_line(a.take(n), state);
        lemma_windows_style_like_the_whole(a.skip(n), b, next, t);
        assert(highlighted(a + b, state, t) =~= highlighted(a, state, t) + highlighted(
            b,
            state_after(a, state),
            t,
        ));
    }
}

/// The interior of a fenced block is all code, byte for byte, but for line endings.
pub proof fn lemma_code_is_not_scanned(line: Seq<u8>, state: FenceState, t: MarkdownTheme, i: int)
    requires
        state.open is Some,
        !closes(line, state),
        0 <= i < content_end(line),
    ensures
        styles_in(line, state, t)[i] == t.code_inline,
        after_line(line, state) == state,
{
    lemma_content_end(line);
}

proof fn lemma_digit_run(b: Seq<u8>, i: int, end: int)
    ensures
        0 <= digit_run(b, i, end),
        i <= end ==> i + digit_run(b, i, end) <= end,
    decreases end - i,
{
    if i < end && 48 <= b[i] <= 57 {
        lemma_digit_run(b, i + 1, end);
    }
}

pub fn content_length(b: &[u8]) -> (e: usize)
    ensures
        e == content_end(b@),
        e <= b@.len(),
{
    let mut e: usize = b.len();
    while e > 0 && (b[e - 1] == 10 || b[e - 1] == 13)
        invariant
            e <= b@.len(),
            forall|i: int| e <= i < b@.len() ==> b@[i] == 10 || b@[i] == 13,
        decreases e,
    {
        e -= 1;
    }
    proof {
        lemma_content_end_is(b@, e as int);
    }
    e
}

fn indent_length(b: &[u8]) -> (a: usize)
    ensures
        a == indent_of(b@),
        a <= b@.len(),
{
    let mut a: usize = 0;
    while a < b.len() && (b[a] == 32 || b[a] == 9)
        invariant
            a <= b@.len(),
            forall|i: int| 0 <= i < a ==> b@[i] == 32 || b@[i] == 9,
        decreases b@.len() - a,
    {
        a += 1;
    }
    proof {
        lemma_indent_of_is(b@, a as int);
    }
    a
}

fn is_all_white(text: &str) -> (yes: bool)
    ensures
        yes == all_white(text@),
{
    let chars = to_chars(text);
    let mut i: usize = 0;
    while i < chars.len()
        invariant
            i <= chars@.len(),
            chars@ == text@,
            forall|j: int| 0 <= j < i ==> white_space(#[trigger] chars@[j]),
        decreases chars@.len() - i,
    {
        if !is_white_space(chars[i]) {
            assert(!white_space(text@[i as int]));
            return false;
        }
        i += 1;
    }
    true
}

/// The end of a line's content is a boundary.
proof fn lemma_content_end_boundary(b: Seq<u8>)
    requires
        valid_utf8(b),
    ensures
        boundary(b, content_end(b)),
{
    lemma_content_end(b);
    lemma_boundary_ends(b);
    if content_end(b) < b.len() {
        lemma_boundary_at_ascii(b, content_end(b));
    }
}

/// The fence character, its run and whether nothing follows, when the line starts
/// with a code-fence delimiter (3+ backticks or tildes after optional indentation).
pub fn fence_delimiter(line: &str) -> (d: Option<(u8, usize, bool)>)
    ensures
        match d {
            Some((ch, run, bare)) => delimiter(encode_utf8(line@)) == Some((ch, run as int, bare)),
            None => delimiter(encode_utf8(line@)) is None,
        },
{
    let b = line.as_bytes();
    let a = indent_length(b);
    let e = content_length(b);
    if a >= e || (b[a] != 96 && b[a] != 126) {
        return None;
    }
    let ch: u8 = b[a];
    let run: usize = run_len(b, a, e, ch);
    if run < 3 {
        return None;
    }
    proof {
        encode_utf8_valid_utf8(line@);
        lemma_run_of(b@, a as int, e as int, ch);
        lemma_boundary_at_ascii(b@, a + run - 1);
        lemma_content_end_boundary(b@);
    }
    let rest = slice(line, a + run, e);
    Some((ch, run, is_all_white(rest)))
}

/// The state after `line`.
pub fn fence_transition(line: &str, state: FenceState) -> (next: FenceState)
    ensures
        next == after_line(encode_utf8(line@), state),
{
    match state.open {
        Some(open) => match fence_delimiter(line) {
            Some((ch, run, bare)) => if ch == open.ch && run >= open.run && bare {
                FenceState::new()
            } else {
                state
            },
            None => state,
        },
        None => match fence_delimiter(line) {
            Some((ch, run, _)) => FenceState { open: Some(Fence { ch, run }) },
            None => state,
        },
    }
}

fn push_styles(out: &mut Vec<Style>, s: Style, n: usize)
    ensures
        final(out)@ == old(out)@ + repeated(s, n as int),
{
    let mut i: usize = 0;
    while i < n
        invariant
            i <= n,
            out@ == old(out)@ + repeated(s, i as int),
        decreases n - i,
    {
        out.push(s);
        i += 1;
        assert(out@ =~= old(out)@ + repeated(s, i as int));
    }
}

fn fill(out: &mut Vec<Style>, from: usize, to: usize, s: Style)
    requires
        from <= to <= old(out)@.len(),
    ensures
        final(out)@ == painted(old(out)@, from as int, to as int, s),
{
    let mut i: usize = from;
    while i < to
        invariant
            from <= i <= to <= old(out)@.len(),
            out@.len() == old(out)@.len(),
            out@ == painted(old(out)@, from as int, i as int, s),
        decreases to - i,
    {
        out.set(i, s);
        i += 1;
        assert(out@ =~= painted(old(out)@, from as int, i as int, s));
    }
    assert(out@ =~= painted(old(out)@, from as int, to as int, s));
}

fn emphasized(base: Style, bold: bool, italic: bool, strike: bool) -> (s: Style)
    ensures
        s == with_emphasis(base, bold, italic, strike),
{
    let mut s = base;
    if bold {
        s = s.bold();
    }
    if italic {
        s = s.italic();
    }
    if strike {
        s = s.crossed_out();
    }
    s
}

fn find(b: &[u8], from: usize, end: usize, target: u8) -> (at: Option<usize>)
    requires
        from <= end <= b@.len(),
    ensures
        match at {
            Some(i) => next_byte(b@, from as int, end as int, target) == Some(i as int) && from <= i
                < end,
            None => next_byte(b@, from as int, end as int, target) is None,
        },
{
    let mut i: usize = from;
    while i < end
        invariant
            from <= i <= end <= b@.len(),
            forall|j: int| from <= j < i ==> b@[j] != target,
        decreases end - i,
    {
        if b[i] == target {
            proof {
                lemma_next_byte_is(b@, from as int, end as int, target, i as int);
            }
            return Some(i);
        }
        i += 1;
    }
    proof {
        lemma_next_byte_none(b@, from as int, end as int, target);
    }
    None
}

/// Index of the `)` matching the `(` at `open`, counting nesting so that a link
/// URL with balanced parentheses (e.g. `(https://e/a_(b))`) is not truncated at
/// the first inner `)`.
fn matching_paren(b: &[u8], open: usize, end: usize) -> (at: Option<usize>)
    requires
        open < end <= b@.len(),
        b@[open as int] == 40,
    ensures
        match at {
            Some(i) => closing_paren(b@, open as int, end as int, 0) == Some(i as int) && open < i
                < end,
            None => closing_paren(b@, open as int, end as int, 0) is None,
        },
{
    let mut depth: usize = 1;
    let mut j: usize = open + 1;
    while j < end
        invariant
            open < j <= end <= b@.len(),
            1 <= depth <= j - open,
            closing_paren(b@, open as int, end as int, 0) == closing_paren(
                b@,
                j as int,
                end as int,
                depth as int,
            ),
        decreases end - j,
    {
        if b[j] == 40 {
            depth += 1;
        } else if b[j] == 41 {
            if depth == 1 {
                return Some(j);
            }
            depth -= 1;
        }
        j += 1;
    }
    None
}

/// Find a run of exactly `len` `c`s starting at or after `from`.
fn find_run(b: &[u8], from: usize, end: usize, c: u8, len: usize) -> (at: Option<usize>)
    requires
        from <= end <= b@.len(),
        len >= 1,
    ensures
        match at {
            Some(i) => next_run(b@, from as int, end as int, c, len as int) == Some(i as int)
                && from <= i && i + len <= end,
            None => next_run(b@, from as int, end as int, c, len as int) is None,
        },
{
    proof {
        lemma_next_run(b@, from as int, end as int, c, len as int);
    }
    let mut j: usize = from;
    while j < end
        invariant
            from <= j <= end <= b@.len(),
            next_run(b@, from as int, end as int, c, len as int) == next_run(
                b@,
                j as int,
                end as int,
                c,
                len as int,
            ),
            match next_run(b@, from as int, end as int, c, len as int) {
                Some(i) => from <= i && i + len <= end,
                None => true,
            },
        decreases end - j,
    {
        if b[j] == c {
            let r: usize = run_len(b, j, end, c);
            proof {
                lemma_run_of(b@, j as int, end as int, c);
                assert(run_of(b@, j as int, end as int, c) >= 1) by {
                    lemma_run_of(b@, j + 1, end as int, c);
                }
            }
            if r == len {
                return Some(j);
            }
            j += r;
        } else {
            j += 1;
        }
    }
    None
}

fn is_word_char(c: char) -> (yes: bool)
    ensures
        yes == word_char(c),
{
    c.is_alphanumeric() || c == '_'
}

/// Whether a single `_` at byte `at` can act as emphasis. GFM forbids intraword
/// underscore emphasis, so an underscore flanked by word characters on both
/// sides stays literal; otherwise it may open or close emphasis.
fn underscore_opens_emphasis(line: &str, at: usize) -> (yes: bool)
    requires
        at < encode_utf8(line@).len(),
        encode_utf8(line@)[at as int] == 95,
    ensures
        yes == underscore_emphasizes(encode_utf8(line@), at as int),
{
    let len: usize = line.as_bytes().len();
    proof {
        encode_utf8_valid_utf8(line@);
        lemma_boundary_at_ascii(encode_utf8(line@), at as int);
        lemma_boundary_ends(encode_utf8(line@));
    }
    let before = to_chars(slice(line, 0, at));
    let after = to_chars(slice(line, at + 1, len));
    let word_before = before.len() > 0 && is_word_char(before[before.len() - 1]);
    let word_after = after.len() > 0 && is_word_char(after[0]);
    !(word_before && word_after)
}

/// Where the inline scanner stands, and the emphasis that is on.
#[derive(Clone, Copy)]
struct Scan {
    i: usize,
    bold: bool,
    italic: bool,
    strike: bool,
}

/// Style a code span, if one begins at the backtick run at `i`; the result is where it
/// ends.
fn scan_code(b: &[u8], i: usize, end: usize, t: &MarkdownTheme, out: &mut Vec<Style>) -> (next: usize)
    requires
        i < end <= b@.len(),
        b@[i as int] == 96,
    ensures
        ({
            let s = inline_step(b@, i as int, end as int, false, false, false, *t);
            final(out)@ == old(out)@ + s.styles && next == s.next
        }),
        i < next <= end,
{
    proof {
        lemma_run_of(b@, i as int, end as int, 96);
    }
    let run: usize = run_len(b, i, end, 96);
    match find_run(b, i + run, end, 96, run) {
        Some(close) => {
            push_styles(out, t.marker, run);
            push_styles(out, t.code_inline, close - i - run);
            push_styles(out, t.marker, run);
            assert(out@ =~= old(out)@ + (repeated(t.marker, run as int) + repeated(
                t.code_inline,
                close - i - run,
            ) + repeated(t.marker, run as int)));
            close + run
        },
        None => {
            out.push(t.text);
            assert(out@ =~= old(out)@ + seq![t.text]);
            i + 1
        },
    }
}

/// Style a link, if one begins at the bracket at `i`; the result is where it ends.
fn scan_link(b: &[u8], i: usize, end: usize, t: &MarkdownTheme, out: &mut Vec<Style>) -> (next: usize)
    requires
        i < end <= b@.len(),
        b@[i as int] == 91,
    ensures
        ({
            let s = inline_step(b@, i as int, end as int, false, false, false, *t);
            final(out)@ == old(out)@ + s.styles && next == s.next
        }),
        i < next <= end,
{
    match find(b, i + 1, end, 93) {
        Some(rb) => {
            let ghost link = seq![t.marker] + repeated(t.link, rb - i - 1) + seq![t.marker];
            out.push(t.marker);
            push_styles(out, t.link, rb - i - 1);
            out.push(t.marker);
            assert(out@ =~= old(out)@ + link);
            if rb + 1 < end && b[rb + 1] == 40 {
                match matching_paren(b, rb + 1, end) {
                    Some(rp) => {
                        push_styles(out, t.marker, rp - rb);
                        assert(out@ =~= old(out)@ + (link + repeated(t.marker, rp - rb)));
                        return rp + 1;
                    },
                    None => {},
                }
            }
            rb + 1
        },
        None => {
            out.push(t.text);
            assert(out@ =~= old(out)@ + seq![t.text]);
            i + 1
        },
    }
}

/// Take one step of the inline scanner.
fn scan_step(line: &str, end: usize, at: Scan, t: &MarkdownTheme, out: &mut Vec<Style>) -> (next: Scan)
    requires
        at.i < end <= encode_utf8(line@).len(),
    ensures
        ({
            let s = inline_step(
                encode_utf8(line@),
                at.i as int,
                end as int,
                at.bold,
                at.italic,
                at.strike,
                *t,
            );
            &&& final(out)@ == old(out)@ + s.styles
            &&& next.i == s.next
            &&& next.bold == s.bold
            &&& next.italic == s.italic
            &&& next.strike == s.strike
        }),
        at.i < next.i <= end,
{
    let b = line.as_bytes();
    let i: usize = at.i;
    let c: u8 = b[i];
    let double = i + 1 < end && b[i + 1] == c;
    let ghost before = out@;
    let mut next = at;
    next.i = i + 1;
    if c == 96 {
        next.i = scan_code(b, i, end, t, out);
    } else if (c == 42 || c == 95) && double {
        next.bold = !at.bold;
        push_styles(out, t.marker, 2);
        next.i = i + 2;
    } else if c == 42 || (c == 95 && underscore_opens_emphasis(line, i)) {
        next.italic = !at.italic;
        out.push(t.marker);
        assert(out@ =~= before + seq![t.marker]);
    } else if c == 126 && double {
        next.strike = !at.strike;
        push_styles(out, t.marker, 2);
        next.i = i + 2;
    } else if c == 91 {
        next.i = scan_link(b, i, end, t, out);
    } else {
        out.push(emphasized(t.text, at.bold, at.italic, at.strike));
        assert(out@ =~= before + seq![with_emphasis(t.text, at.bold, at.italic, at.strike)]);
    }
    next
}

/// Scan inline markdown in `line[start..end]`, styling delimiters and content.
/// Emphasis is handled by a forgiving toggle scanner (not full CommonMark), which
/// is visually sensible while editing and always lossless.
fn inline_scan(line: &str, start: usize, end: usize, t: &MarkdownTheme, out: &mut Vec<Style>)
    requires
        start <= end <= encode_utf8(line@).len(),
    ensures
        final(out)@ == old(out)@ + inline_styles(
            encode_utf8(line@),
            start as int,
            end as int,
            false,
            false,
            false,
            *t,
        ),
{
    let ghost b = encode_utf8(line@);
    let ghost all = inline_styles(b, start as int, end as int, false, false, false, *t);
    let mut at = Scan { i: start, bold: false, italic: false, strike: false };
    while at.i < end
        invariant
            start <= at.i <= end <= b.len(),
            b == encode_utf8(line@),
            out@ + inline_styles(b, at.i as int, end as int, at.bold, at.italic, at.strike, *t)
                == old(out)@ + all,
        decreases end - at.i,
    {
        let ghost before = out@;
        let ghost s = inline_step(
            b,
            at.i as int,
            end as int,
            at.bold,
            at.italic,
            at.strike,
            *t,
        );
        let ghost rest = inline_styles(b, s.next, end as int, s.bold, s.italic, s.strike, *t);
        at = scan_step(line, end, at, t, out);
        assert(out@ + rest =~= before + (s.styles + rest));
    }
    assert(out@ =~= old(out)@ + all);
}

fn is_word_byte(b: u8) -> (yes: bool)
    ensures
        yes == word_byte(b),
{
    (48 <= b && b <= 57) || (65 <= b && b <= 90) || (97 <= b && b <= 122) || b == 95
}

/// Where `word` ends, if it stands at `at` as a word of its own.
fn word_at(b: &[u8], at: usize, end: usize, word: &str) -> (stop: Option<usize>)
    requires
        at <= end <= b@.len(),
    ensures
        match stop {
            Some(stop) => keyword_is(b@, at as int, end as int, word@) && stop == at + encode_utf8(
                word@,
            ).len() && stop <= end,
            None => !keyword_is(b@, at as int, end as int, word@),
        },
{
    let w = word.as_bytes();
    if end - at < w.len() || !is_at(b, at, w) {
        return None;
    }
    let stop: usize = at + w.len();
    if stop < b.len() && is_word_byte(b[stop]) {
        return None;
    }
    Some(stop)
}

fn keyword_at(b: &[u8], at: usize, end: usize, t: &MarkdownTheme) -> (k: Option<(usize, Style)>)
    requires
        at < end <= b@.len(),
    ensures
        match k {
            Some((stop, s)) => keyword(b@, at as int, end as int, *t) == Some((stop as int, s))
                && at < stop <= end,
            None => keyword(b@, at as int, end as int, *t) is None,
        },
{
    proof {
        lemma_keywords_not_empty();
    }
    if at > 0 && is_word_byte(b[at - 1]) {
        return None;
    }
    match word_at(b, at, end, "IMPORTANT") {
        Some(stop) => {
            return Some((stop, t.keyword_misc));
        },
        None => {},
    }
    match word_at(b, at, end, "WARNING") {
        Some(stop) => {
            return Some((stop, t.keyword_warn));
        },
        None => {},
    }
    match word_at(b, at, end, "FIXME") {
        Some(stop) => {
            return Some((stop, t.keyword_error));
        },
        None => {},
    }
    match word_at(b, at, end, "ERROR") {
        Some(stop) => {
            return Some((stop, t.keyword_error));
        },
        None => {},
    }
    match word_at(b, at, end, "WARN") {
        Some(stop) => {
            return Some((stop, t.keyword_warn));
        },
        None => {},
    }
    match word_at(b, at, end, "TODO") {
        Some(stop) => {
            return Some((stop, t.keyword_note));
        },
        None => {},
    }
    match word_at(b, at, end, "NOTE") {
        Some(stop) => {
            return Some((stop, t.keyword_note));
        },
        None => {},
    }
    match word_at(b, at, end, "HACK") {
        Some(stop) => {
            return Some((stop, t.keyword_misc));
        },
        None => {},
    }
    None
}

proof fn lemma_nonempty_bytes(s: Seq<char>)
    requires
        s.len() > 0,
    ensures
        encode_utf8(s).len() > 0,
{
    encode_utf8_valid_utf8(s);
    encode_utf8_decode_utf8(s);
    if encode_utf8(s).len() == 0 {
        assert(decode_utf8(encode_utf8(s)) =~= Seq::<char>::empty());
    }
}

proof fn lemma_keywords_not_empty()
    ensures
        encode_utf8("IMPORTANT"@).len() > 0,
        encode_utf8("WARNING"@).len() > 0,
        encode_utf8("FIXME"@).len() > 0,
        encode_utf8("ERROR"@).len() > 0,
        encode_utf8("WARN"@).len() > 0,
        encode_utf8("TODO"@).len() > 0,
        encode_utf8("NOTE"@).len() > 0,
        encode_utf8("HACK"@).len() > 0,
{
    reveal_strlit("IMPORTANT");
    reveal_strlit("WARNING");
    reveal_strlit("FIXME");
    reveal_strlit("ERROR");
    reveal_strlit("WARN");
    reveal_strlit("TODO");
    reveal_strlit("NOTE");
    reveal_strlit("HACK");
    lemma_nonempty_bytes("IMPORTANT"@);
    lemma_nonempty_bytes("WARNING"@);
    lemma_nonempty_bytes("FIXME"@);
    lemma_nonempty_bytes("ERROR"@);
    lemma_nonempty_bytes("WARN"@);
    lemma_nonempty_bytes("TODO"@);
    lemma_nonempty_bytes("NOTE"@);
    lemma_nonempty_bytes("HACK"@);
}

/// Paint the badge words of `b[start..end]`; `out` holds the styles of the line.
fn highlight_keywords(b: &[u8], start: usize, end: usize, t: &MarkdownTheme, out: &mut Vec<Style>)
    requires
        start <= end <= b@.len(),
        old(out)@.len() == b@.len(),
    ensures
        final(out)@ == with_keywords(b@, start as int, end as int, old(out)@, *t),
{
    let ghost all = with_keywords(b@, start as int, end as int, old(out)@, *t);
    let mut i: usize = start;
    while i < end
        invariant
            start <= i <= end <= b@.len(),
            out@.len() == b@.len(),
            with_keywords(b@, i as int, end as int, out@, *t) == all,
        decreases end - i,
    {
        match keyword_at(b, i, end, t) {
            Some((stop, s)) => {
                fill(out, i, stop, s);
                i = stop;
            },
            None => {
                i += 1;
            },
        }
    }
}

/// Length of a leading list marker (`- `, `* `, `+ `, `1. `, `2) `…), if any.
fn list_marker_len(b: &[u8], a: usize, e: usize) -> (n: Option<usize>)
    requires
        a <= e <= b@.len(),
    ensures
        match n {
            Some(n) => marker_len(b@, a as int, e as int) == Some(n as int) && a + n <= e,
            None => marker_len(b@, a as int, e as int) is None,
        },
{
    if e - a >= 2 && (b[a] == 45 || b[a] == 42 || b[a] == 43) && b[a + 1] == 32 {
        return Some(2);
    }
    let mut d: usize = 0;
    while d < e - a && 48 <= b[a + d] && b[a + d] <= 57
        invariant
            a + d <= e <= b@.len(),
            digit_run(b@, a as int, e as int) == d + digit_run(b@, a + d, e as int),
        decreases e - a - d,
    {
        d += 1;
    }
    if d > 0 && e - a - d > 1 && (b[a + d] == 46 || b[a + d] == 41) && b[a + d + 1] == 32 {
        return Some(d + 2);
    }
    None
}

fn inline_from(line: &str, a: usize, m: usize, marker: Style, t: &MarkdownTheme) -> (styles: Vec<Style>)
    requires
        a == indent_of(encode_utf8(line@)),
        a <= m <= content_end(encode_utf8(line@)),
    ensures
        styles@ == inline_line(encode_utf8(line@), a as int, m as int, marker, *t),
{
    let b = line.as_bytes();
    let e = content_length(b);
    let mut out: Vec<Style> = Vec::new();
    push_styles(&mut out, t.text, a);
    push_styles(&mut out, marker, m - a);
    inline_scan(line, m, e, t, &mut out);
    push_styles(&mut out, t.text, b.len() - e);
    proof {
        lemma_inline_styles_cover(b@, m as int, e as int, false, false, false, *t);
        assert(out@ =~= repeated(t.text, a as int) + repeated(marker, m - a) + inline_styles(
            b@,
            m as int,
            e as int,
            false,
            false,
            false,
            *t,
        ) + repeated(t.text, b@.len() - e));
    }
    highlight_keywords(b, m, e, t, &mut out);
    out
}

fn highlight_line(line: &str, t: &MarkdownTheme) -> (styles: Vec<Style>)
    ensures
        styles@ == line_styles(encode_utf8(line@), *t),
{
    let b = line.as_bytes();
    let e = content_length(b);
    let a = indent_length(b);
    proof {
        lemma_indent_of(b@);
    }
    // ATX heading: 1–6 '#'s followed by a space.
    let hashes: usize = run_len(b, a, e, 35);
    if 1 <= hashes && hashes <= 6 && a + hashes < e && b[a + hashes] == 32 {
        let m: usize = a + hashes + 1;
        let mut out: Vec<Style> = Vec::new();
        push_styles(&mut out, t.text, a);
        push_styles(&mut out, t.marker, m - a);
        push_styles(&mut out, t.heading(hashes as u8), e - m);
        push_styles(&mut out, t.text, b.len() - e);
        assert(out@ =~= repeated(t.text, a as int) + repeated(t.marker, m - a) + repeated(
            t.heading_of(hashes as u8),
            e - m,
        ) + repeated(t.text, b@.len() - e));
        highlight_keywords(b, m, e, t, &mut out);
        return out;
    }
    // Block quote.
    if a < e && b[a] == 62 {
        let m: usize = if a + 1 < e && b[a + 1] == 32 {
            a + 2
        } else {
            a + 1
        };
        return inline_from(line, a, m, t.quote_bar, t);
    }
    // Fenced code delimiter line.
    if run_len(b, a, e, 96) >= 3 || run_len(b, a, e, 126) >= 3 {
        let mut out: Vec<Style> = Vec::new();
        push_styles(&mut out, t.text, a);
        push_styles(&mut out, t.marker, e - a);
        push_styles(&mut out, t.text, b.len() - e);
        assert(out@ =~= repeated(t.text, a as int) + repeated(t.marker, e - a) + repeated(
            t.text,
            b@.len() - e,
        ));
        return out;
    }
    // List marker.
    match list_marker_len(b, a, e) {
        Some(n) => inline_from(line, a, a + n, t.list_marker, t),
        None => inline_from(line, a, a, t.text, t),
    }
}

/// One style per byte of `src`.
pub fn highlight(src: &str, theme: &MarkdownTheme) -> (styles: Vec<Style>)
    ensures
        styles@ == highlighted(encode_utf8(src@), FenceState::outside(), *theme),
        styles@.len() == encode_utf8(src@).len(),
{
    highlight_from(src, FenceState::new(), theme)
}

/// The line that begins at `from` ends behind the next newline, or at the end.
proof fn lemma_line_found(b: Seq<u8>, from: int, to: int)
    requires
        valid_utf8(b),
        0 <= from < b.len(),
        to == match next_byte(b, from, b.len() as int, 10) {
            Some(i) => i + 1,
            None => b.len() as int,
        },
    ensures
        from < to <= b.len(),
        boundary(b, to),
        first_line_len(b.skip(from)) == to - from,
{
    let rest = b.skip(from);
    lemma_next_byte(b, from, b.len() as int, 10);
    lemma_boundary_ends(b);
    match next_byte(b, from, b.len() as int, 10) {
        Some(i) => {
            assert(rest[i - from] == 10);
            assert forall|j: int| 0 <= j < i - from implies rest[j] != 10 by {
                assert(rest[j] == b[from + j]);
            }
            lemma_next_byte_is(rest, 0, rest.len() as int, 10, i - from);
            lemma_boundary_at_ascii(b, i);
        },
        None => {
            assert forall|j: int| 0 <= j < rest.len() implies rest[j] != 10 by {
                assert(rest[j] == b[from + j]);
            }
            lemma_next_byte_none(rest, 0, rest.len() as int, 10);
        },
    }
}

/// The styles of a line put behind others, and the state after it.
fn style_line(line: &str, state: FenceState, theme: &MarkdownTheme, styles: &mut Vec<Style>) -> (next:
    FenceState)
    ensures
        next == after_line(encode_utf8(line@), state),
        final(styles)@ == old(styles)@ + styles_in(encode_utf8(line@), state, *theme),
{
    let ghost before = styles@;
    let ghost bytes = encode_utf8(line@);
    let next = fence_transition(line, state);
    let code = match state.open {
        Some(_) => next.open.is_some(),
        None => false,
    };
    assert(code == (state.open is Some && !closes(bytes, state)));
    if code {
        let e = content_length(line.as_bytes());
        push_styles(styles, theme.code_inline, e);
        push_styles(styles, theme.text, line.as_bytes().len() - e);
    } else {
        let mut part = highlight_line(line, theme);
        styles.append(&mut part);
    }
    assert(styles@ =~= before + styles_in(bytes, state, *theme));
    next
}

/// What is highlighted from the next line on.
proof fn lemma_highlighted_line(
    b: Seq<u8>,
    from: int,
    to: int,
    state: FenceState,
    t: MarkdownTheme,
)
    requires
        0 <= from < to <= b.len(),
        first_line_len(b.skip(from)) == to - from,
    ensures
        highlighted(b.skip(from), state, t) == styles_in(b.subrange(from, to), state, t) + highlighted(
            b.skip(to),
            after_line(b.subrange(from, to), state),
            t,
        ),
{
    let rest = b.skip(from);
    assert(rest.take(to - from) =~= b.subrange(from, to));
    assert(rest.skip(to - from) =~= b.skip(to));
}

/// One style per byte of `src`, a window of a document that begins in `state`.
#[verifier::spinoff_prover]
pub fn highlight_from(src: &str, state: FenceState, theme: &MarkdownTheme) -> (styles: Vec<Style>)
    ensures
        styles@ == highlighted(encode_utf8(src@), state, *theme),
        styles@.len() == encode_utf8(src@).len(),
{
    let b = src.as_bytes();
    proof {
        encode_utf8_valid_utf8(src@);
        lemma_highlighting_is_lossless(b@, state, *theme);
        lemma_boundary_ends(b@);
    }
    let mut styles: Vec<Style> = Vec::new();
    let mut fence = state;
    let mut from: usize = 0;
    let ghost all = highlighted(b@, state, *theme);
    assert(b@.skip(0) =~= b@);
    assert(styles@ + all =~= all);
    while from < b.len()
        invariant
            from <= b@.len(),
            b@ == encode_utf8(src@),
            valid_utf8(b@),
            boundary(b@, from as int),
            styles@ + highlighted(b@.skip(from as int), fence, *theme) == all,
        decreases b@.len() - from,
    {
        let ghost before = styles@;
        let to: usize = match find(b, from, b.len(), 10) {
            Some(i) => i + 1,
            None => b.len(),
        };
        proof {
            lemma_line_found(b@, from as int, to as int);
            lemma_highlighted_line(b@, from as int, to as int, fence, *theme);
        }
        let line = slice(src, from, to);
        let next = style_line(line, fence, theme, &mut styles);
        proof {
            let part = styles_in(b@.subrange(from as int, to as int), fence, *theme);
            let tail = highlighted(b@.skip(to as int), next, *theme);
            assert(styles@ + tail =~= before + (part + tail));
        }
        fence = next;
        from = to;
    }
    assert(b@.skip(from as int) =~= Seq::<u8>::empty());
    assert(styles@ + Seq::<Style>::empty() =~= styles@);
    styles
}

} // verus!
