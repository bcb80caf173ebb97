//! How the source is styled.

use vstd::prelude::*;
use vstd::utf8::*;

use super::theme::MarkdownTheme;
use super::tokenizer::{
    closing_paren, content_end, indent_of, inline_step, inline_styles, keyword, keyword_is,
    line_styles, marker_len, next_byte, next_run, repeated, with_emphasis, with_keywords, word_byte,
};
use crate::bytes::lemma_run_of_is;
use crate::layout::lemma_ascii_values;
use crate::style::Style;

verus! {

/// Whether none of the words that stand out is in a part of a line.
pub open spec fn no_keywords(line: Seq<u8>, from: int, end: int, t: MarkdownTheme) -> bool {
    forall|i: int| from <= i < end ==> #[trigger] keyword(line, i, end, t) is None
}

proof fn lemma_nothing_stands_out(line: Seq<u8>, i: int, end: int, styles: Seq<Style>, t: MarkdownTheme)
    requires
        no_keywords(line, i, end, t),
    ensures
        with_keywords(line, i, end, styles, t) == styles,
    decreases end - i,
{
    if i < end {
        assert(keyword(line, i, end, t) is None);
        lemma_nothing_stands_out(line, i + 1, end, styles, t);
    }
}

/// A heading is styled by its level from behind its hashes and the space to its end, and the
/// hashes and the space as markers.
pub proof fn lemma_headings_are_styled(line: Seq<u8>, level: int, t: MarkdownTheme, i: int)
    requires
        1 <= level <= 6,
        ({
            let a = indent_of(line);
            let e = content_end(line);
            &&& 0 <= a
            &&& a + level < e <= line.len()
            &&& forall|j: int| a <= j < a + level ==> #[trigger] line[j] == 35
            &&& line[a + level] == 32
            &&& no_keywords(line, a + level + 1, e, t)
            &&& a <= i < e
        }),
    ensures
        ({
            let a = indent_of(line);
            line_styles(line, t)[i] == if i <= a + level {
                t.marker
            } else {
                t.heading_of(level as u8)
            }
        }),
{
    let a = indent_of(line);
    let e = content_end(line);
    lemma_run_of_is(line, a, e, 35, level);
    let m = a + level + 1;
    let styles = repeated(t.text, a) + repeated(t.marker, m - a) + repeated(
        t.heading_of(level as u8),
        e - m,
    ) + repeated(t.text, line.len() - e);
    lemma_nothing_stands_out(line, m, e, styles, t);
}

/// What is no mark of emphasis, of code or of a link.
pub open spec fn plain_byte(b: u8) -> bool {
    b != 96 && b != 42 && b != 95 && b != 126 && b != 91
}

/// Plain text is styled by the emphasis that is on.
proof fn lemma_plain_text(
    line: Seq<u8>,
    i: int,
    k: int,
    end: int,
    bold: bool,
    italic: bool,
    strike: bool,
    t: MarkdownTheme,
)
    requires
        0 <= i <= k <= end,
        forall|j: int| i <= j < k ==> plain_byte(#[trigger] line[j]),
    ensures
        inline_styles(line, i, end, bold, italic, strike, t) == repeated(
            with_emphasis(t.text, bold, italic, strike),
            k - i,
        ) + inline_styles(line, k, end, bold, italic, strike, t),
    decreases k - i,
{
    let s = with_emphasis(t.text, bold, italic, strike);
    if i < k {
        assert(plain_byte(line[i]));
        lemma_plain_text(line, i + 1, k, end, bold, italic, strike, t);
        assert(inline_step(line, i, end, bold, italic, strike, t).styles == seq![s]);
        assert(inline_styles(line, i, end, bold, italic, strike, t) =~= seq![s] + inline_styles(
            line,
            i + 1,
            end,
            bold,
            italic,
            strike,
            t,
        ));
        assert(seq![s] + repeated(s, k - i - 1) =~= repeated(s, k - i));
        assert(seq![s] + (repeated(s, k - i - 1) + inline_styles(line, k, end, bold, italic, strike, t))
            =~= (seq![s] + repeated(s, k - i - 1)) + inline_styles(
            line,
            k,
            end,
            bold,
            italic,
            strike,
            t,
        ));
    } else {
        assert(repeated(s, 0) + inline_styles(line, k, end, bold, italic, strike, t)
            =~= inline_styles(line, k, end, bold, italic, strike, t));
    }
}

/// The marks that go around emphasized text, and what they switch on.
pub open spec fn emphasis(mark: Seq<u8>, bold: bool, italic: bool, strike: bool) -> bool {
    ||| bold && !italic && !strike && (mark == seq![42u8, 42u8] || mark == seq![95u8, 95u8])
    ||| italic && !bold && !strike && mark == seq![42u8]
    ||| strike && !bold && !italic && mark == seq![126u8, 126u8]
}

/// Plain text between two marks is bold between `**` and `__`, italic between `*`, and crossed
/// out between `~~`; the marks are styled as markers, and what is behind them as plain text.
#[verifier::spinoff_prover]
pub proof fn lemma_emphasis_is_styled(
    line: Seq<u8>,
    i: int,
    k: int,
    end: int,
    mark: Seq<u8>,
    bold: bool,
    italic: bool,
    strike: bool,
    t: MarkdownTheme,
)
    requires
        emphasis(mark, bold, italic, strike),
        0 <= i,
        i + mark.len() < k,
        k + mark.len() == end <= line.len(),
        line.subrange(i, i + mark.len()) == mark,
        line.subrange(k, k + mark.len()) == mark,
        forall|j: int| i + mark.len() <= j < k ==> plain_byte(#[trigger] line[j]),
    ensures
        inline_styles(line, i, end, false, false, false, t) == repeated(t.marker, mark.len() as int)
            + repeated(with_emphasis(t.text, bold, italic, strike), k - i - mark.len()) + repeated(
            t.marker,
            mark.len() as int,
        ),
{
    let n = mark.len() as int;
    let s = with_emphasis(t.text, bold, italic, strike);
    assert(forall|j: int| 0 <= j < n ==> line[i + j] == mark[j]) by {
        assert forall|j: int| 0 <= j < n implies line[i + j] == mark[j] by {
            assert(line.subrange(i, i + n)[j] == mark[j]);
        }
    }
    assert(forall|j: int| 0 <= j < n ==> line[k + j] == mark[j]) by {
        assert forall|j: int| 0 <= j < n implies line[k + j] == mark[j] by {
            assert(line.subrange(k, k + n)[j] == mark[j]);
        }
    }
    assert(line[i + 0] == mark[0] && line[k + 0] == mark[0]);
    if n == 2 {
        assert(line[i + 1] == mark[1] && line[k + 1] == mark[1]);
    } else {
        assert(plain_byte(line[i + 1]));
    }
    lemma_plain_text(line, i + n, k, end, bold, italic, strike, t);
    let first = inline_step(line, i, end, false, false, false, t);
    assert(first.styles =~= repeated(t.marker, n));
    assert(first.next == i + n);
    let last = inline_step(line, k, end, bold, italic, strike, t);
    assert(last.styles =~= repeated(t.marker, n));
    assert(last.next == end);
    let rest = inline_styles(line, end, end, last.bold, last.italic, last.strike, t);
    assert(rest =~= Seq::<Style>::empty());
    assert(inline_styles(line, k, end, bold, italic, strike, t) =~= repeated(t.marker, n));
    assert(inline_styles(line, i, end, false, false, false, t) =~= repeated(t.marker, n) + repeated(
        s,
        k - i - n,
    ) + repeated(t.marker, n));
}

/// The words that stand out, each with its style.
pub open spec fn has_its_style(word: Seq<char>, style: Style, t: MarkdownTheme) -> bool {
    ||| word == "TODO"@ && style == t.keyword_note
    ||| word == "NOTE"@ && style == t.keyword_note
    ||| word == "FIXME"@ && style == t.keyword_error
    ||| word == "ERROR"@ && style == t.keyword_error
    ||| word == "WARN"@ && style == t.keyword_warn
    ||| word == "WARNING"@ && style == t.keyword_warn
    ||| word == "HACK"@ && style == t.keyword_misc
    ||| word == "IMPORTANT"@ && style == t.keyword_misc
}

proof fn lemma_letters(word: Seq<char>, line: Seq<u8>, at: int, end: int)
    requires
        keyword_is(line, at, end, word),
        word.len() >= 4,
        0 <= at,
        end <= line.len(),
        forall|i: int| 0 <= i < word.len() ==> (#[trigger] word[i] as u32) < 0x80,
    ensures
        encode_utf8(word).len() == word.len(),
        forall|i: int| 0 <= i < word.len() ==> line[at + i] as u32 == #[trigger] word[i] as u32,
{
    lemma_ascii_values(word);
    assert forall|i: int| 0 <= i < word.len() implies line[at + i] as u32 == #[trigger] word[i] as u32 by {
        assert(encode_utf8(word)[i] as u32 == word[i] as u32);
        assert(line.subrange(at, at + encode_utf8(word).len())[i] == encode_utf8(word)[i]);
    }
}

/// Each of the words stands out in its own style, where it is a word of its own.
#[verifier::spinoff_prover]
pub proof fn lemma_words_stand_out(
    line: Seq<u8>,
    at: int,
    end: int,
    word: Seq<char>,
    style: Style,
    t: MarkdownTheme,
)
    requires
        has_its_style(word, style, t),
        0 <= at,
        end <= line.len(),
        at == 0 || !word_byte(line[at - 1]),
        keyword_is(line, at, end, word),
    ensures
        keyword(line, at, end, t) == Some((at + word.len(), style)),
{
    reveal_strlit("TODO");
    reveal_strlit("NOTE");
    reveal_strlit("FIXME");
    reveal_strlit("ERROR");
    reveal_strlit("WARN");
    reveal_strlit("WARNING");
    reveal_strlit("HACK");
    reveal_strlit("IMPORTANT");
    lemma_letters(word, line, at, end);
    assert(line[at + 0] as u32 == word[0] as u32 && line[at + 1] as u32 == word[1] as u32);
    if keyword_is(line, at, end, "IMPORTANT"@) {
        lemma_letters("IMPORTANT"@, line, at, end);
        assert(line[at + 0] as u32 == "IMPORTANT"@[0] as u32);
    }
    if keyword_is(line, at, end, "WARNING"@) {
        lemma_letters("WARNING"@, line, at, end);
        assert(line[at + 0] as u32 == "WARNING"@[0] as u32);
        assert(line[at + 4] as u32 == "WARNING"@[4] as u32);
        if word == "WARN"@ {
            assert(word_byte(line[at + 4]));
        }
    }
    if keyword_is(line, at, end, "FIXME"@) {
        lemma_letters("FIXME"@, line, at, end);
        assert(line[at + 0] as u32 == "FIXME"@[0] as u32);
    }
    if keyword_is(line, at, end, "ERROR"@) {
        lemma_letters("ERROR"@, line, at, end);
        assert(line[at + 0] as u32 == "ERROR"@[0] as u32);
    }
    if keyword_is(line, at, end, "WARN"@) {
        lemma_letters("WARN"@, line, at, end);
        assert(line[at + 0] as u32 == "WARN"@[0] as u32);
    }
    if keyword_is(line, at, end, "TODO"@) {
        lemma_letters("TODO"@, line, at, end);
        assert(line[at + 0] as u32 == "TODO"@[0] as u32);
    }
    if keyword_is(line, at, end, "NOTE"@) {
        lemma_letters("NOTE"@, line, at, end);
        assert(line[at + 0] as u32 == "NOTE"@[0] as u32);
    }
}

/// The bar of a quote, with the space behind it, and the bullet or the number of an item with
/// its space, are styled as such.
pub proof fn lemma_line_markers_are_styled(line: Seq<u8>, t: MarkdownTheme, i: int)
    requires
        ({
            let a = indent_of(line);
            let e = content_end(line);
            &&& 0 <= a < e <= line.len()
            &&& no_keywords(line, a + 1, e, t)
            &&& a <= i < e
        }),
    ensures
        ({
            let a = indent_of(line);
            let e = content_end(line);
            &&& line[a] == 62 && (i == a || i == a + 1 && line[i] == 32) ==> line_styles(line, t)[i]
                == t.quote_bar
            &&& (line[a] == 45 || line[a] == 42 || line[a] == 43) && a + 1 < e && line[a + 1] == 32 && i
                <= a + 1 ==> line_styles(line, t)[i] == t.list_marker
        }),
{
    let a = indent_of(line);
    let e = content_end(line);
    lemma_no_run(line, a, e, 35);
    lemma_no_run(line, a, e, 96);
    lemma_no_run(line, a, e, 126);
    if line[a] == 62 {
        let m = if a + 1 < e && line[a + 1] == 32 {
            a + 2
        } else {
            a + 1
        };
        let styles = repeated(t.text, a) + repeated(t.quote_bar, m - a) + inline_styles(
            line,
            m,
            e,
            false,
            false,
            false,
            t,
        ) + repeated(t.text, line.len() - e);
        lemma_nothing_stands_out(line, m, e, styles, t);
    }
    if (line[a] == 45 || line[a] == 42 || line[a] == 43) && a + 1 < e && line[a + 1] == 32 {
        assert(marker_len(line, a, e) == Some(2int));
        let styles = repeated(t.text, a) + repeated(t.list_marker, 2) + inline_styles(
            line,
            a + 2,
            e,
            false,
            false,
            false,
            t,
        ) + repeated(t.text, line.len() - e);
        lemma_nothing_stands_out(line, a + 2, e, styles, t);
    }
}

proof fn lemma_no_run(b: Seq<u8>, i: int, end: int, c: u8)
    requires
        i < end,
    ensures
        b[i] != c ==> crate::bytes::run_of(b, i, end, c) == 0,
{
}

proof fn lemma_next_run(b: Seq<u8>, from: int, end: int, k: int)
    requires
        from <= k < end,
        forall|j: int| from <= j < k ==> #[trigger] b[j] != 96,
        b[k] == 96,
        k + 1 == end || b[k + 1] != 96,
    ensures
        next_run(b, from, end, 96, 1) == Some(k),
    decreases k - from,
{
    if from < k {
        assert(b[from] != 96);
        lemma_next_run(b, from + 1, end, k);
    } else {
        lemma_run_of_is(b, k, end, 96, 1);
    }
}

/// Code between two backticks is styled as code, whatever it is, and the backticks as markers.
pub proof fn lemma_code_is_styled(
    line: Seq<u8>,
    i: int,
    k: int,
    end: int,
    bold: bool,
    italic: bool,
    strike: bool,
    t: MarkdownTheme,
)
    requires
        0 <= i,
        i + 1 < k < end <= line.len(),
        line[i] == 96,
        line[k] == 96,
        forall|j: int| i < j < k ==> #[trigger] line[j] != 96,
        k + 1 == end || line[k + 1] != 96,
    ensures
        inline_styles(line, i, end, bold, italic, strike, t) == seq![t.marker] + repeated(
            t.code_inline,
            k - i - 1,
        ) + seq![t.marker] + inline_styles(line, k + 1, end, bold, italic, strike, t),
{
    assert(line[i + 1] != 96);
    lemma_run_of_is(line, i, end, 96, 1);
    lemma_next_run(line, i + 1, end, k);
    assert(repeated(t.marker, 1) =~= seq![t.marker]);
}

proof fn lemma_next_byte_is(b: Seq<u8>, from: int, end: int, c: u8, k: int)
    requires
        from <= k < end,
        forall|j: int| from <= j < k ==> #[trigger] b[j] != c,
        b[k] == c,
    ensures
        next_byte(b, from, end, c) == Some(k),
    decreases k - from,
{
    if from < k {
        assert(b[from] != c);
        lemma_next_byte_is(b, from + 1, end, c, k);
    }
}

proof fn lemma_paren_closes(b: Seq<u8>, j: int, end: int, k: int)
    requires
        j <= k < end,
        forall|i: int| j <= i < k ==> #[trigger] b[i] != 40 && b[i] != 41,
        b[k] == 41,
    ensures
        closing_paren(b, j, end, 1) == Some(k),
    decreases k - j,
{
    if j < k {
        assert(b[j] != 40 && b[j] != 41);
        lemma_paren_closes(b, j + 1, end, k);
    }
}

/// The text of a link is styled as a link, and its brackets and its target as markers.
pub proof fn lemma_links_are_styled(
    line: Seq<u8>,
    i: int,
    rb: int,
    rp: int,
    end: int,
    bold: bool,
    italic: bool,
    strike: bool,
    t: MarkdownTheme,
)
    requires
        0 <= i < rb,
        rb + 1 < rp < end <= line.len(),
        line[i] == 91,
        line[rb] == 93,
        line[rb + 1] == 40,
        line[rp] == 41,
        forall|j: int| i < j < rb ==> #[trigger] line[j] != 93,
        forall|j: int| rb + 1 < j < rp ==> #[trigger] line[j] != 40 && line[j] != 41,
    ensures
        inline_styles(line, i, end, bold, italic, strike, t) == seq![t.marker] + repeated(
            t.link,
            rb - i - 1,
        ) + seq![t.marker] + repeated(t.marker, rp - rb) + inline_styles(
            line,
            rp + 1,
            end,
            bold,
            italic,
            strike,
            t,
        ),
{
    lemma_next_byte_is(line, i + 1, end, 93, rb);
    lemma_paren_closes(line, rb + 2, end, rp);
    assert(closing_paren(line, rb + 1, end, 0) == closing_paren(line, rb + 2, end, 1));
}

} // verus!
