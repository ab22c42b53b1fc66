//! Styled text as the terminal UI draws it: colors, a style (foreground,
//! background, bold, italic), spans of uniformly styled text and lines of
//! spans. The UI layer maps these one for one onto its drawing library's
//! own types.

use vstd::prelude::*;

verus! {

/// A terminal color: one of the sixteen named ones, or a true color.
#[derive(Clone, Copy, Debug, PartialEq, Eq, Structural, Hash)]
pub enum Color {
    Black,
    Red,
    Green,
    Yellow,
    Blue,
    Magenta,
    Cyan,
    Gray,
    DarkGray,
    LightRed,
    LightGreen,
    LightYellow,
    LightBlue,
    LightMagenta,
    LightCyan,
    White,
    Rgb(u8, u8, u8),
}

/// How a span is drawn. `None` colors leave the terminal's own in place.
#[derive(Clone, Copy, Debug, PartialEq, Eq, Structural)]
pub struct Style {
    pub fg: Option<Color>,
    pub bg: Option<Color>,
    pub bold: bool,
    pub italic: bool,
}

/// The default style: no colors, no modifiers.
pub open spec fn plain_style() -> Style {
    Style { fg: None, bg: None, bold: false, italic: false }
}

impl Style {
    /// The default style: no colors, no modifiers.
    pub fn new() -> (s: Style)
        ensures
            s == plain_style(),
    {
        Style { fg: None, bg: None, bold: false, italic: false }
    }

    /// This style with foreground `c`.
    pub fn fg(self, c: Color) -> (s: Style)
        ensures
            s == (Style { fg: Some(c), ..self }),
    {
        Style { fg: Some(c), ..self }
    }

    /// This style with background `c`.
    pub fn bg(self, c: Color) -> (s: Style)
        ensures
            s == (Style { bg: Some(c), ..self }),
    {
        Style { bg: Some(c), ..self }
    }

    /// This style, bold.
    pub fn bold(self) -> (s: Style)
        ensures
            s == (Style { bold: true, ..self }),
    {
        Style { bold: true, ..self }
    }

    /// This style, italic.
    pub fn italic(self) -> (s: Style)
        ensures
            s == (Style { italic: true, ..self }),
    {
        Style { italic: true, ..self }
    }
}

/// The foreground-only style `fg(c)`.
pub open spec fn fg_style(c: Color) -> Style {
    Style { fg: Some(c), ..plain_style() }
}

/// A run of text drawn in one style.
#[derive(Clone, Debug)]
pub struct Span {
    pub content: String,
    pub style: Style,
}

/// A span taken by value.
pub struct SpanView {
    pub content: Seq<char>,
    pub style: Style,
}

impl Span {
    pub open spec fn view(&self) -> SpanView {
        SpanView { content: self.content@, style: self.style }
    }

    /// A span of `content` drawn in `style`.
    pub fn styled(content: String, style: Style) -> (s: Span)
        ensures
            s.content@ == content@,
            s.style == style,
    {
        Span { content, style }
    }
}

/// One line of text: its spans, left to right.
#[derive(Clone, Debug)]
pub struct Line {
    pub spans: Vec<Span>,
}

impl Line {
    pub open spec fn view(&self) -> Seq<SpanView> {
        self.spans@.map_values(|s: Span| s.view())
    }
}

/// The characters of `spans`, concatenated.
pub open spec fn spans_text(spans: Seq<SpanView>) -> Seq<char>
    decreases spans.len(),
{
    if spans.len() == 0 {
        Seq::empty()
    } else {
        spans_text(spans.drop_last()) + spans.last().content
    }
}

/// `lines` taken by value.
pub open spec fn lines_view(lines: Seq<Line>) -> Seq<Seq<SpanView>> {
    lines.map_values(|l: Line| l.view())
}

} // verus!
