//! A small CommonMark renderer for project descriptions.
//!
//! It renders a practical subset (headings, paragraphs, lists, blockquotes,
//! fenced/indented code, tables, inline code/bold/italic/strikethrough/links)
//! into wrapped, styled lines that fit a fixed terminal width. Styles are
//! described by their role ([`MdTone`]) plus modifiers; the caller maps roles
//! to colours.

pub mod blocks;
pub mod inline;
pub mod layout;
pub mod render;
pub mod wrap;

use vstd::prelude::*;

verus! {

/// The colour role of a run of rendered text.
#[derive(Debug, Clone, Copy, PartialEq, Eq, Structural)]
pub enum MdTone {
    /// Ordinary text on a card.
    Body,
    /// Headings and table header cells (rendered bold).
    Heading,
    /// Horizontal rules, table separators and image placeholders.
    Rule,
    /// Inline code spans.
    Code,
    /// Fenced and indented code blocks.
    CodeBlock,
    /// Block quotes, including their `│` gutter.
    Quote,
    /// The first-line list marker (`•` or `1.`).
    Marker,
    /// Dimmed filler: list continuation indent and table gutters.
    Dim,
}

/// A colour role plus text modifiers.
#[derive(Debug, Clone, Copy, PartialEq, Eq, Structural)]
pub struct MdStyle {
    pub tone: MdTone,
    pub bold: bool,
    pub italic: bool,
    pub underlined: bool,
    pub crossed: bool,
}

/// A run of text with a single style.
#[derive(Debug, Clone)]
pub struct MdSpan {
    pub text: String,
    pub style: MdStyle,
}

/// One rendered line.
#[derive(Debug, Clone)]
pub struct MdLine {
    pub spans: Vec<MdSpan>,
}

/// A span as text and style.
pub type SpanV = (Seq<char>, MdStyle);

/// A line as its spans.
pub type LineV = Seq<SpanV>;

/// A character with its style.
pub type Item = (char, MdStyle);

impl View for MdSpan {
    type V = SpanV;

    open spec fn view(&self) -> SpanV {
        (self.text@, self.style)
    }
}

impl View for MdLine {
    type V = LineV;

    open spec fn view(&self) -> LineV {
        self.spans@.map_values(|s: MdSpan| s@)
    }
}

/// The views of a sequence of lines.
pub open spec fn lines_view(v: Seq<MdLine>) -> Seq<LineV> {
    v.map_values(|l: MdLine| l@)
}

/// A style of the given role with no modifiers.
pub open spec fn plain(tone: MdTone) -> MdStyle {
    MdStyle { tone, bold: false, italic: false, underlined: false, crossed: false }
}

/// The heading style: the heading role, bold.
pub open spec fn heading_style() -> MdStyle {
    MdStyle { tone: MdTone::Heading, bold: true, italic: false, underlined: false, crossed: false }
}

/// A style of the given role with no modifiers.
pub fn style_of(tone: MdTone) -> (r: MdStyle)
    ensures
        r == plain(tone),
{
    MdStyle { tone, bold: false, italic: false, underlined: false, crossed: false }
}

/// The heading style.
pub fn heading() -> (r: MdStyle)
    ensures
        r == heading_style(),
{
    MdStyle { tone: MdTone::Heading, bold: true, italic: false, underlined: false, crossed: false }
}

/// Each character of `text` paired with `st`.
pub open spec fn styled(text: Seq<char>, st: MdStyle) -> Seq<Item> {
    text.map_values(|c: char| (c, st))
}

/// A line holding one span.
pub fn span_line(text: String, style: MdStyle) -> (r: MdLine)
    ensures
        r@ == seq![(text@, style)],
{
    let mut spans: Vec<MdSpan> = Vec::new();
    spans.push(MdSpan { text, style });
    let r = MdLine { spans };
    assert(r@ =~= seq![(text@, style)]);
    r
}

/// A line with no spans.
pub fn empty_line() -> (r: MdLine)
    ensures
        r@ == Seq::<SpanV>::empty(),
{
    let r = MdLine { spans: Vec::new() };
    assert(r@ =~= Seq::<SpanV>::empty());
    r
}

/// Append `lines` to `out`.
pub fn extend_lines(out: &mut Vec<MdLine>, lines: Vec<MdLine>)
    ensures
        lines_view(final(out)@) == lines_view(old(out)@) + lines_view(lines@),
{
    let mut lines = lines;
    let ghost src = lines@;
    out.append(&mut lines);
    assert(lines_view(out@) =~= lines_view(old(out)@) + lines_view(src));
}

} // verus!
