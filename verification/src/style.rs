//! Styled text: colors, styles, spans, and the cells that spans show.

use crate::unicode::{display_width, narrow};
use vstd::prelude::*;

verus! {

/// A terminal color.
#[derive(Clone, Copy, Debug, PartialEq, Eq)]
pub enum Color {
    Reset,
    Black,
    Red,
    Green,
    Yellow,
    Blue,
    Magenta,
    Cyan,
    Gray,
    DarkGray,
    LightRed,
    LightGreen,
    LightYellow,
    LightBlue,
    LightMagenta,
    LightCyan,
    White,
    Rgb(u8, u8, u8),
    Indexed(u8),
}

/// The modifier bit that dims text.
pub const DIM: u16 = 2;

/// How a cell is painted. A part that is `None` leaves what is below it.
#[derive(Clone, Copy, Debug, PartialEq, Eq)]
pub struct Style {
    pub fg: Option<Color>,
    pub bg: Option<Color>,
    pub add_modifier: u16,
    pub sub_modifier: u16,
}

/// The style that paints nothing.
pub open spec fn plain_style() -> Style {
    Style { fg: None, bg: None, add_modifier: 0, sub_modifier: 0 }
}

impl Default for Style {
    fn default() -> (style: Self)
        ensures
            style == plain_style(),
    {
        Style { fg: None, bg: None, add_modifier: 0, sub_modifier: 0 }
    }
}

impl Style {
    /// The style with the given foreground.
    pub fn fg(self, color: Color) -> (style: Style)
        ensures
            style == (Style { fg: Some(color), ..self }),
    {
        Style { fg: Some(color), ..self }
    }

    /// The style with the given background.
    pub fn bg(self, color: Color) -> (style: Style)
        ensures
            style == (Style { bg: Some(color), ..self }),
    {
        Style { bg: Some(color), ..self }
    }

    /// What shows when `over` is painted over the style.
    pub open spec fn patched(self, over: Style) -> Style {
        Style {
            fg: if over.fg is Some {
                over.fg
            } else {
                self.fg
            },
            bg: if over.bg is Some {
                over.bg
            } else {
                self.bg
            },
            add_modifier: (self.add_modifier & !over.sub_modifier) | over.add_modifier,
            sub_modifier: (self.sub_modifier & !over.add_modifier) | over.sub_modifier,
        }
    }

    /// The style with `over` painted over it.
    pub fn patch(self, over: Style) -> (style: Style)
        ensures
            style == self.patched(over),
    {
        Style {
            fg: if over.fg.is_some() {
                over.fg
            } else {
                self.fg
            },
            bg: if over.bg.is_some() {
                over.bg
            } else {
                self.bg
            },
            add_modifier: (self.add_modifier & !over.sub_modifier) | over.add_modifier,
            sub_modifier: (self.sub_modifier & !over.add_modifier) | over.sub_modifier,
        }
    }
}

/// A cell of text: a character and its style.
pub type Cell = (char, Style);

/// A run of text in one style.
pub type Run = (Seq<char>, Style);

/// A run of text in one style.
#[derive(Debug)]
pub struct Span {
    pub content: String,
    pub style: Style,
}

/// A row of text in spans.
#[derive(Debug)]
pub struct Line {
    pub spans: Vec<Span>,
}

/// What spans show in a row, span by span.
pub open spec fn runs(spans: Seq<Span>) -> Seq<Run> {
    Seq::new(spans.len(), |i: int| (spans[i].content@, spans[i].style))
}

/// The cells of a text in one style.
pub open spec fn styled(text: Seq<char>, style: Style) -> Seq<Cell> {
    Seq::new(text.len(), |i: int| (text[i], style))
}

/// The cells that runs show in a row.
pub open spec fn cells(row: Seq<Run>) -> Seq<Cell>
    decreases row.len(),
{
    if row.len() == 0 {
        Seq::empty()
    } else {
        cells(row.drop_last()) + styled(row.last().0, row.last().1)
    }
}

/// The characters of cells.
pub open spec fn chars_of(row: Seq<Cell>) -> Seq<char> {
    Seq::new(row.len(), |i: int| row[i].0)
}

/// Whether every character of the runs takes one column.
pub open spec fn narrow_runs(row: Seq<Run>) -> bool {
    forall|i: int| 0 <= i < row.len() ==> narrow((#[trigger] row[i]).0)
}

/// The terminal columns that runs take, each measured by itself.
pub open spec fn runs_width(row: Seq<Run>) -> nat
    decreases row.len(),
{
    if row.len() == 0 {
        0
    } else {
        runs_width(row.drop_last()) + display_width(row.last().0)
    }
}

impl Span {
    /// A span of `content` in `style`.
    pub fn styled(content: &str, style: Style) -> (span: Span)
        ensures
            span.content@ == content@,
            span.style == style,
    {
        Span { content: content.to_owned(), style }
    }
}

/// Runs in a row show the cells of both lists in a row.
pub proof fn lemma_cells_concat(a: Seq<Run>, b: Seq<Run>)
    ensures
        cells(a + b) == cells(a) + cells(b),
    decreases b.len(),
{
    if b.len() == 0 {
        assert(a + b =~= a);
        assert(cells(a) + cells(b) =~= cells(a));
    } else {
        lemma_cells_concat(a, b.drop_last());
        assert((a + b).drop_last() =~= a + b.drop_last());
        assert(cells(a + b) =~= cells(a) + cells(b));
    }
}

/// Runs in a row take the columns of both lists.
pub proof fn lemma_width_concat(a: Seq<Run>, b: Seq<Run>)
    ensures
        runs_width(a + b) == runs_width(a) + runs_width(b),
    decreases b.len(),
{
    if b.len() == 0 {
        assert(a + b =~= a);
    } else {
        lemma_width_concat(a, b.drop_last());
        assert((a + b).drop_last() =~= a + b.drop_last());
    }
}

/// One more run shows its cells and takes its columns after the others.
pub proof fn lemma_push_run(row: Seq<Run>, next: Run)
    ensures
        cells(row.push(next)) == cells(row) + styled(next.0, next.1),
        runs_width(row.push(next)) == runs_width(row) + display_width(next.0),
{
    assert(row.push(next).drop_last() =~= row);
}

/// Append `text` in `style`.
pub fn push_text(spans: &mut Vec<Span>, text: &str, style: Style)
    ensures
        runs(final(spans)@) == runs(old(spans)@).push((text@, style)),
{
    spans.push(Span::styled(text, style));
    assert(runs(spans@) =~= runs(old(spans)@).push((text@, style)));
}

/// Append a copy of `more` to `spans`, span by span.
pub fn extend_spans(spans: &mut Vec<Span>, more: &Vec<Span>)
    ensures
        runs(final(spans)@) == runs(old(spans)@) + runs(more@),
        runs_width(runs(final(spans)@)) == runs_width(runs(old(spans)@)) + runs_width(
            runs(more@),
        ),
{
    let mut i: usize = 0;
    assert(runs(spans@) =~= runs(old(spans)@) + runs(more@).take(0));
    while i < more.len()
        invariant
            i <= more.len(),
            runs(spans@) == runs(old(spans)@) + runs(more@).take(i as int),
        decreases more.len() - i,
    {
        push_text(spans, more[i].content.as_str(), more[i].style);
        i = i + 1;
        assert(runs(spans@) =~= runs(old(spans)@) + runs(more@).take(i as int));
    }
    proof {
        assert(runs(more@).take(i as int) =~= runs(more@));
        lemma_width_concat(runs(old(spans)@), runs(more@));
    }
}

/// A copy of `spans`, span by span.
pub fn copy_spans(spans: &Vec<Span>) -> (copy: Vec<Span>)
    ensures
        runs(copy@) == runs(spans@),
{
    let mut copy: Vec<Span> = Vec::new();
    extend_spans(&mut copy, spans);
    assert(runs(copy@) =~= runs(spans@));
    copy
}

} // verus!
