//! How a run of text looks, and styled lines.

use vstd::prelude::*;

use crate::color::Color;


verus! {

/// Colours and emphasis of a run of text.
#[derive(Clone, Copy, Debug, PartialEq, Eq, Structural)]
pub struct Style {
    pub fg: Option<Color>,
    pub bg: Option<Color>,
    pub bold: bool,
    pub dim: bool,
    pub italic: bool,
    pub underlined: bool,
    pub crossed_out: bool,
}

impl Style {
    /// The style that changes nothing.
    pub open spec fn plain() -> Style {
        Style {
            fg: None,
            bg: None,
            bold: false,
            dim: false,
            italic: false,
            underlined: false,
            crossed_out: false,
        }
    }

    pub open spec fn with_fg(self, color: Color) -> Style {
        Style { fg: Some(color), ..self }
    }

    pub open spec fn with_bg(self, color: Color) -> Style {
        Style { bg: Some(color), ..self }
    }

    pub open spec fn with_bold(self) -> Style {
        Style { bold: true, ..self }
    }

    pub open spec fn with_dim(self) -> Style {
        Style { dim: true, ..self }
    }

    pub open spec fn with_italic(self) -> Style {
        Style { italic: true, ..self }
    }

    pub open spec fn with_underlined(self) -> Style {
        Style { underlined: true, ..self }
    }

    pub open spec fn with_crossed_out(self) -> Style {
        Style { crossed_out: true, ..self }
    }

    /// The style that changes nothing.
    #[verifier::when_used_as_spec(plain)]
    pub fn new() -> (s: Style)
        ensures
            s == Style::plain(),
    {
        Style {
            fg: None,
            bg: None,
            bold: false,
            dim: false,
            italic: false,
            underlined: false,
            crossed_out: false,
        }
    }

    /// This style with the foreground `color`.
    #[verifier::when_used_as_spec(with_fg)]
    pub fn fg(self, color: Color) -> (s: Style)
        ensures
            s == self.with_fg(color),
    {
        let mut s = self;
        s.fg = Some(color);
        s
    }

    /// This style with the background `color`.
    #[verifier::when_used_as_spec(with_bg)]
    pub fn bg(self, color: Color) -> (s: Style)
        ensures
            s == self.with_bg(color),
    {
        let mut s = self;
        s.bg = Some(color);
        s
    }

    /// This style in bold.
    #[verifier::when_used_as_spec(with_bold)]
    pub fn bold(self) -> (s: Style)
        ensures
            s == self.with_bold(),
    {
        let mut s = self;
        s.bold = true;
        s
    }

    /// This style, dim.
    #[verifier::when_used_as_spec(with_dim)]
    pub fn dim(self) -> (s: Style)
        ensures
            s == self.with_dim(),
    {
        let mut s = self;
        s.dim = true;
        s
    }

    /// This style in italics.
    #[verifier::when_used_as_spec(with_italic)]
    pub fn italic(self) -> (s: Style)
        ensures
            s == self.with_italic(),
    {
        let mut s = self;
        s.italic = true;
        s
    }

    /// This style underlined.
    #[verifier::when_used_as_spec(with_underlined)]
    pub fn underlined(self) -> (s: Style)
        ensures
            s == self.with_underlined(),
    {
        let mut s = self;
        s.underlined = true;
        s
    }

    /// This style struck through.
    #[verifier::when_used_as_spec(with_crossed_out)]
    pub fn crossed_out(self) -> (s: Style)
        ensures
            s == self.with_crossed_out(),
    {
        let mut s = self;
        s.crossed_out = true;
        s
    }
}

impl Style {
    /// This style with the emphasis of `other` added.
    pub open spec fn layered(self, other: Style) -> Style {
        Style {
            bold: self.bold || other.bold,
            dim: self.dim || other.dim,
            italic: self.italic || other.italic,
            underlined: self.underlined || other.underlined,
            crossed_out: self.crossed_out || other.crossed_out,
            ..self
        }
    }

    /// This style with the emphasis of `other` added.
    pub fn add_emphasis(self, other: Style) -> (s: Style)
        ensures
            s == self.layered(other),
    {
        let mut s = self;
        s.bold = self.bold || other.bold;
        s.dim = self.dim || other.dim;
        s.italic = self.italic || other.italic;
        s.underlined = self.underlined || other.underlined;
        s.crossed_out = self.crossed_out || other.crossed_out;
        s
    }
}

/// A run of text in one style.
#[derive(Debug)]
pub struct Span {
    pub text: String,
    pub style: Style,
}

/// What a [`Span`] shows.
#[verifier::ext_equal]
pub struct SpanView {
    pub text: Seq<char>,
    pub style: Style,
}

impl View for Span {
    type V = SpanView;

    open spec fn view(&self) -> SpanView {
        SpanView { text: self.text@, style: self.style }
    }
}

/// What spans show.
pub open spec fn span_views(spans: Seq<Span>) -> Seq<SpanView> {
    spans.map_values(|s: Span| s@)
}

/// A span of the given text and style.
pub open spec fn shown(text: Seq<char>, style: Style) -> SpanView {
    SpanView { text, style }
}

/// Text in the style that changes nothing.
pub open spec fn raw(text: Seq<char>) -> SpanView {
    SpanView { text, style: Style::plain() }
}

impl Span {
    pub fn styled(text: String, style: Style) -> (span: Span)
        ensures
            span@ == shown(text@, style),
    {
        Span { text, style }
    }

    pub fn raw(text: String) -> (span: Span)
        ensures
            span@ == raw(text@),
    {
        Span { text, style: Style::new() }
    }

    /// A span that shows the same.
    pub fn copy(&self) -> (span: Span)
        ensures
            span@ == self@,
    {
        Span { text: self.text.clone(), style: self.style }
    }
}

/// One line of styled text.
#[derive(Debug)]
pub struct Line {
    pub spans: Vec<Span>,
}

impl View for Line {
    type V = Seq<SpanView>;

    open spec fn view(&self) -> Seq<SpanView> {
        span_views(self.spans@)
    }
}

/// What lines show.
pub open spec fn line_views(lines: Seq<Line>) -> Seq<Seq<SpanView>> {
    lines.map_values(|l: Line| l@)
}

/// Copy spans to the end of others.
pub fn append_spans(out: &mut Vec<Span>, spans: &Vec<Span>)
    ensures
        span_views(final(out)@) == span_views(old(out)@) + span_views(spans@),
{
    let ghost before = span_views(out@);
    let mut i: usize = 0;
    assert(span_views(out@) =~= before + span_views(spans@).take(0));
    while i < spans.len()
        invariant
            i <= spans@.len(),
            span_views(out@) == before + span_views(spans@).take(i as int),
        decreases spans@.len() - i,
    {
        let ghost prior = span_views(out@);
        let span = spans[i].copy();
        let ghost added = span@;
        out.push(span);
        i += 1;
        assert(span_views(out@) =~= prior.push(added));
        assert(span_views(spans@).take(i as int) =~= span_views(spans@).take(i - 1).push(added));
        assert(span_views(out@) =~= before + span_views(spans@).take(i as int));
    }
    assert(span_views(spans@).take(i as int) =~= span_views(spans@));
}

impl Line {
    /// A line with nothing on it.
    pub fn empty() -> (line: Line)
        ensures
            line@ == Seq::<SpanView>::empty(),
    {
        let line = Line { spans: Vec::new() };
        assert(line@ =~= Seq::<SpanView>::empty());
        line
    }

    /// A line of one span.
    pub fn of(span: Span) -> (line: Line)
        ensures
            line@ == seq![span@],
    {
        let mut spans: Vec<Span> = Vec::new();
        spans.push(span);
        let line = Line { spans };
        assert(line@ =~= seq![span@]);
        line
    }

    /// A line that shows the same.
    pub fn copy(&self) -> (line: Line)
        ensures
            line@ == self@,
    {
        let mut spans: Vec<Span> = Vec::new();
        append_spans(&mut spans, &self.spans);
        let line = Line { spans };
        assert(line@ =~= self@);
        line
    }
}

} // verus!
