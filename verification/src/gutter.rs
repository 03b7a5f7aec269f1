//! What stands left of a row's text: the cursor indicator, line numbers, the
//! change marker, and the divider between the two columns.

use crate::style::{
    cells, lemma_push_run, narrow_runs, plain_style, push_text, runs, runs_width, styled, Run,
    Span, Style,
};
use crate::theme::Theme;
use crate::unicode::{display_width, narrow, width};
use vstd::prelude::*;
use vstd::string::StringExecFns;

verus! {

/// The decimal digit of a number below ten.
pub open spec fn digit(n: int) -> char {
    (n + '0' as int) as char
}

/// A number in decimal, without leading zeros.
pub open spec fn decimal(n: int) -> Seq<char>
    decreases n,
{
    if n < 10 {
        seq![digit(n)]
    } else {
        decimal(n / 10).push(digit(n % 10))
    }
}

/// `n` spaces.
pub open spec fn blanks(n: int) -> Seq<char> {
    Seq::new(n as nat, |i: int| ' ')
}

/// `text` with spaces before it up to `width`, or as it is where it is wider.
pub open spec fn right_aligned(text: Seq<char>, width: int) -> Seq<char> {
    if text.len() < width {
        blanks(width - text.len()) + text
    } else {
        text
    }
}

/// The digits of a line number in a column of `width`, blank where the side has
/// no such line.
pub open spec fn number_text(lineno: Option<u32>, width: int) -> Seq<char> {
    match lineno {
        Some(n) => right_aligned(decimal(n as int), width),
        None => blanks(width),
    }
}

/// A string of one digit.
fn digit_str(n: u32) -> (text: &'static str)
    requires
        n < 10,
    ensures
        text@ == seq![digit(n as int)],
{
    proof {
        reveal_strlit("0");
        reveal_strlit("1");
        reveal_strlit("2");
        reveal_strlit("3");
        reveal_strlit("4");
        reveal_strlit("5");
        reveal_strlit("6");
        reveal_strlit("7");
        reveal_strlit("8");
        reveal_strlit("9");
    }
    let text = match n {
        0 => "0",
        1 => "1",
        2 => "2",
        3 => "3",
        4 => "4",
        5 => "5",
        6 => "6",
        7 => "7",
        8 => "8",
        _ => "9",
    };
    assert(text@ =~= seq![digit(n as int)]);
    text
}

/// Append a number in decimal.
fn push_decimal(out: &mut String, n: u32)
    ensures
        final(out)@ == old(out)@ + decimal(n as int),
    decreases n,
{
    if n >= 10 {
        push_decimal(out, n / 10);
    }
    out.append(digit_str(n % 10));
    assert(out@ =~= old(out)@ + decimal(n as int));
}

/// How many digits a number has.
fn digit_count(n: u32) -> (count: usize)
    ensures
        count == decimal(n as int).len(),
{
    let mut count: usize = 1;
    let mut rest: u32 = n;
    while rest >= 10
        invariant
            rest <= n,
            1 <= count <= 1 + n - rest,
            decimal(n as int).len() == count - 1 + decimal(rest as int).len(),
        decreases rest,
    {
        rest = rest / 10;
        count = count + 1;
    }
    count
}

/// Append `n` spaces.
fn push_blanks(out: &mut String, n: usize)
    ensures
        final(out)@ == old(out)@ + blanks(n as int),
{
    proof {
        reveal_strlit(" ");
    }
    let mut i: usize = 0;
    assert(out@ =~= old(out)@ + blanks(0));
    while i < n
        invariant
            i <= n,
            " "@ == seq![' '],
            out@ == old(out)@ + blanks(i as int),
        decreases n - i,
    {
        out.append(" ");
        i = i + 1;
        assert(out@ =~= old(out)@ + blanks(i as int));
    }
}

/// A string of `n` spaces.
pub fn blank_text(n: usize) -> (text: String)
    ensures
        text@ == blanks(n as int),
        display_width(text@) == n,
{
    let mut text = String::new();
    push_blanks(&mut text, n);
    assert(text@ =~= blanks(n as int));
    let _columns: usize = width(text.as_str());
    text
}

/// Every digit of a number takes one column.
proof fn lemma_decimal_narrow(n: int)
    requires
        0 <= n,
    ensures
        narrow(decimal(n)),
    decreases n,
{
    if n >= 10 {
        lemma_decimal_narrow(n / 10);
    }
}

/// Every character of a line number in its column takes one column.
proof fn lemma_number_narrow(lineno: Option<u32>, lw: int)
    ensures
        narrow(number_text(lineno, lw)),
{
    if let Some(n) = lineno {
        lemma_decimal_narrow(n as int);
    }
}

/// The digits of a line number in a column of `lw`, and a space after them.
fn number(lineno: Option<u32>, lw: usize) -> (text: String)
    ensures
        text@ == number_text(lineno, lw as int) + blanks(1),
        display_width(text@) == number_text(lineno, lw as int).len() + 1,
{
    let mut text = String::new();
    match lineno {
        Some(n) => {
            let digits: usize = digit_count(n);
            if digits < lw {
                push_blanks(&mut text, lw - digits);
            }
            push_decimal(&mut text, n);
        },
        None => {
            push_blanks(&mut text, lw);
        },
    }
    assert(text@ =~= number_text(lineno, lw as int));
    push_blanks(&mut text, 1);
    proof {
        lemma_number_narrow(lineno, lw as int);
        assert(narrow(text@));
    }
    let _columns: usize = width(text.as_str());
    text
}

/// The cell that marks the row under the cursor.
pub open spec fn indicator_text(row: int, cursor: int) -> Seq<char> {
    if row == cursor {
        seq!['\u{25b6}']
    } else {
        seq![' ']
    }
}

/// The indicator of a row, one cell wide.
pub fn cursor_indicator(row: usize, cursor: usize) -> (text: &'static str)
    ensures
        text@ == indicator_text(row as int, cursor as int),
        display_width(text@) == 1,
{
    proof {
        reveal_strlit("\u{25b6}");
        reveal_strlit(" ");
    }
    let text = if row == cursor {
        "\u{25b6}"
    } else {
        " "
    };
    assert(text@ =~= indicator_text(row as int, cursor as int));
    let _columns: usize = width(text);
    text
}

/// The indicator of a row with a space after it.
pub fn cursor_indicator_spaced(row: usize, cursor: usize) -> (text: &'static str)
    ensures
        text@ == indicator_text(row as int, cursor as int) + blanks(1),
        display_width(text@) == 2,
{
    proof {
        reveal_strlit("\u{25b6} ");
        reveal_strlit("  ");
    }
    let text = if row == cursor {
        "\u{25b6} "
    } else {
        "  "
    };
    assert(text@ =~= indicator_text(row as int, cursor as int) + blanks(1));
    let _columns: usize = width(text);
    text
}

/// What stands left of one side of a row: the line number, and the marker of a
/// change.
#[derive(Clone, Copy, Debug)]
pub struct SideSpec {
    pub lineno: Option<u32>,
    pub marker: Marker,
    pub marker_style: Style,
}

/// The marker between a line number and the text.
#[derive(Clone, Copy, Debug, PartialEq, Eq, Structural)]
pub enum Marker {
    /// The line is unchanged, or the side has none.
    Blank,
    /// The line was deleted or added.
    Bar,
}

impl Marker {
    /// The marker's one character.
    pub open spec fn glyph(self) -> char {
        match self {
            Marker::Blank => ' ',
            Marker::Bar => '\u{258c}',
        }
    }

    /// The marker as text.
    pub fn text(self) -> (text: &'static str)
        ensures
            text@ == seq![self.glyph()],
            display_width(text@) == 1,
    {
        proof {
            reveal_strlit(" ");
            reveal_strlit("\u{258c}");
        }
        let text = match self {
            Marker::Blank => " ",
            Marker::Bar => "\u{258c}",
        };
        assert(text@ =~= seq![self.glyph()]);
        let _columns: usize = width(text);
        text
    }
}

/// The divider between the columns, with a space on both sides.
pub open spec fn divider_text() -> Seq<char> {
    seq![' ', '\u{2502}', ' ']
}

/// The divider as text.
fn divider() -> (text: &'static str)
    ensures
        text@ == divider_text(),
        display_width(text@) == 3,
{
    proof {
        reveal_strlit(" \u{2502} ");
    }
    let text = " \u{2502} ";
    assert(text@ =~= divider_text());
    let _columns: usize = width(text);
    text
}

/// The runs of a line number and its marker.
pub open spec fn side_runs(side: SideSpec, number_style: Style, lw: int) -> Seq<Run> {
    seq![
        (number_text(side.lineno, lw) + blanks(1), number_style),
        (seq![side.marker.glyph()], side.marker_style),
    ]
}

/// The runs left of the left column: the indicator, then number and marker.
pub open spec fn left_prefix_runs(
    theme: Theme,
    indicator: Seq<char>,
    side: SideSpec,
    number_style: Style,
    lw: int,
) -> Seq<Run> {
    seq![(indicator, theme.current_line_indicator_style)] + side_runs(side, number_style, lw)
}

/// The runs left of the right column: the divider, then number and marker.
pub open spec fn right_prefix_runs(
    theme: Theme,
    side: SideSpec,
    number_style: Style,
    lw: int,
) -> Seq<Run> {
    seq![(divider_text(), theme.dim_style)] + side_runs(side, number_style, lw)
}

/// The terminal columns of a line number and its marker.
pub open spec fn side_width(side: SideSpec, lw: int) -> nat {
    number_text(side.lineno, lw).len() + 2
}

/// Whether a line number fits its column.
pub open spec fn number_fits(lineno: Option<u32>, lw: int) -> bool {
    lineno is Some ==> decimal(lineno->0 as int).len() <= lw
}

/// Append a line number and its marker.
fn push_side(spans: &mut Vec<Span>, side: SideSpec, number_style: Style, lw: usize)
    ensures
        runs(final(spans)@) == runs(old(spans)@) + side_runs(side, number_style, lw as int),
        runs_width(runs(final(spans)@)) == runs_width(runs(old(spans)@)) + side_width(
            side,
            lw as int,
        ),
{
    let text = number(side.lineno, lw);
    proof {
        let row = runs(spans@);
        let run: Run = (text@, number_style);
        lemma_push_run(row, run);
        lemma_push_run(row.push(run), (seq![side.marker.glyph()], side.marker_style));
    }
    push_text(spans, text.as_str(), number_style);
    let marker = side.marker.text();
    push_text(spans, marker, side.marker_style);
    assert(runs(spans@) =~= runs(old(spans)@) + side_runs(side, number_style, lw as int));
}

/// The prefixes of a row with its numbers in `number_style`.
pub fn number_prefixes(
    theme: &Theme,
    indicator: &str,
    left: SideSpec,
    right: SideSpec,
    number_style: Style,
    lw: usize,
) -> (prefixes: (Vec<Span>, Vec<Span>))
    ensures
        runs(prefixes.0@) == left_prefix_runs(*theme, indicator@, left, number_style, lw as int),
        runs(prefixes.1@) == right_prefix_runs(*theme, right, number_style, lw as int),
        runs_width(runs(prefixes.0@)) == display_width(indicator@) + side_width(left, lw as int),
        runs_width(runs(prefixes.1@)) == 3 + side_width(right, lw as int),
{
    let mut left_prefix: Vec<Span> = Vec::new();
    let mut right_prefix: Vec<Span> = Vec::new();
    proof {
        lemma_push_run(runs(left_prefix@), (indicator@, theme.current_line_indicator_style));
        lemma_push_run(runs(right_prefix@), (divider_text(), theme.dim_style));
    }
    push_text(&mut left_prefix, indicator, theme.current_line_indicator_style);
    push_side(&mut left_prefix, left, number_style, lw);
    let divider = divider();
    push_text(&mut right_prefix, divider, theme.dim_style);
    push_side(&mut right_prefix, right, number_style, lw);
    proof {
        assert(runs(left_prefix@) =~= left_prefix_runs(
            *theme,
            indicator@,
            left,
            number_style,
            lw as int,
        ));
        assert(runs(right_prefix@) =~= right_prefix_runs(
            *theme,
            right,
            number_style,
            lw as int,
        ));
    }
    (left_prefix, right_prefix)
}

/// The prefixes of a diff row: dim line numbers, each with its marker. With an
/// indicator of one column and numbers that fit theirs, they are as wide as the
/// blank prefixes of a continuation row.
pub fn sbs_row_prefixes(
    theme: &Theme,
    indicator: &str,
    left: SideSpec,
    right: SideSpec,
    lw: usize,
) -> (prefixes: (Vec<Span>, Vec<Span>))
    ensures
        runs(prefixes.0@) == left_prefix_runs(
            *theme,
            indicator@,
            left,
            theme.dim_style,
            lw as int,
        ),
        runs(prefixes.1@) == right_prefix_runs(*theme, right, theme.dim_style, lw as int),
        runs_width(runs(prefixes.0@)) == display_width(indicator@) + side_width(left, lw as int),
        runs_width(runs(prefixes.1@)) == 3 + side_width(right, lw as int),
        display_width(indicator@) == 1 && number_fits(left.lineno, lw as int) ==> runs_width(
            runs(prefixes.0@),
        ) == lw + 3,
        number_fits(right.lineno, lw as int) ==> runs_width(runs(prefixes.1@)) == lw + 5,
{
    number_prefixes(theme, indicator, left, right, theme.dim_style, lw)
}

/// The runs left of the left column on a continuation row.
pub open spec fn left_blank_runs(lw: int) -> Seq<Run> {
    seq![(blanks(lw + 3), plain_style())]
}

/// The runs left of the right column on a continuation row.
pub open spec fn right_blank_runs(theme: Theme, lw: int) -> Seq<Run> {
    seq![(divider_text(), theme.dim_style), (blanks(lw + 2), plain_style())]
}

/// Continuation-row prefixes shared by every wrapped line: blank in place of
/// the line numbers (same width, so columns stay aligned) with the center
/// divider preserved.
pub fn sbs_blank_prefixes(theme: &Theme, lw: usize) -> (prefixes: (Vec<Span>, Vec<Span>))
    requires
        lw + 3 <= usize::MAX,
    ensures
        runs(prefixes.0@) == left_blank_runs(lw as int),
        runs(prefixes.1@) == right_blank_runs(*theme, lw as int),
        runs_width(runs(prefixes.0@)) == lw + 3,
        runs_width(runs(prefixes.1@)) == lw + 5,
        cells(runs(prefixes.0@)) == styled(blanks(lw + 3), plain_style()),
        cells(runs(prefixes.1@)) == styled(divider_text(), theme.dim_style) + styled(
            blanks(lw + 2),
            plain_style(),
        ),
{
    let mut left: Vec<Span> = Vec::new();
    let mut right: Vec<Span> = Vec::new();
    let left_text = blank_text(lw + 3);
    let right_text = blank_text(lw + 2);
    proof {
        let first: Run = (divider_text(), theme.dim_style);
        lemma_push_run(runs(left@), (left_text@, plain_style()));
        lemma_push_run(runs(right@), first);
        lemma_push_run(runs(right@).push(first), (right_text@, plain_style()));
    }
    push_text(&mut left, left_text.as_str(), Style::default());
    let divider = divider();
    push_text(&mut right, divider, theme.dim_style);
    push_text(&mut right, right_text.as_str(), Style::default());
    proof {
        assert(runs(left@) =~= left_blank_runs(lw as int));
        assert(runs(right@) =~= right_blank_runs(*theme, lw as int));
    }
    (left, right)
}

/// The cells left of the left column's text.
pub fn sbs_left_gutter(lw: usize) -> (width: u16)
    requires
        lw + 3 <= u16::MAX,
    ensures
        width == lw + 3,
{
    (lw + 3) as u16
}

/// The cells of a row that hold no text of either column.
pub fn sbs_overhead(lw: usize) -> (width: u16)
    requires
        2 * lw + 8 <= u16::MAX,
    ensures
        width == 2 * lw + 8,
{
    (2 * lw + 8) as u16
}

/// The width of each text column in a panel.
pub fn sbs_content_width(panel_width: u16, lw: usize) -> (width: usize)
    requires
        2 * lw + 8 <= u16::MAX,
    ensures
        width == (if panel_width < 2 * lw + 8 {
            0
        } else {
            (panel_width - (2 * lw + 8)) / 2
        }),
        2 * lw + 8 <= panel_width ==> 2 * width + (2 * lw + 8) <= panel_width < 2 * (width + 1) + (
        2 * lw + 8),
{
    let available: u16 = panel_width.saturating_sub(sbs_overhead(lw));
    available as usize / 2
}

/// Columns stay aligned: where the line numbers fit their column, a row's
/// prefixes hold as many characters as a continuation row's, and the two
/// together are the overhead of a row. Each of these characters takes one
/// column.
pub proof fn lemma_prefixes_aligned(
    theme: Theme,
    row: int,
    cursor: int,
    left: SideSpec,
    right: SideSpec,
    number_style: Style,
    lw: int,
)
    requires
        lw >= 0,
        number_fits(left.lineno, lw),
        number_fits(right.lineno, lw),
    ensures
        cells(
            left_prefix_runs(theme, indicator_text(row, cursor), left, number_style, lw),
        ).len() == lw + 3,
        cells(left_blank_runs(lw)).len() == lw + 3,
        cells(right_prefix_runs(theme, right, number_style, lw)).len() == lw + 5,
        cells(right_blank_runs(theme, lw)).len() == lw + 5,
        narrow_runs(left_prefix_runs(theme, indicator_text(row, cursor), left, number_style, lw)),
        narrow_runs(left_blank_runs(lw)),
        narrow_runs(right_prefix_runs(theme, right, number_style, lw)),
        narrow_runs(right_blank_runs(theme, lw)),
{
    reveal_with_fuel(cells, 4);
    lemma_number_narrow(left.lineno, lw);
    lemma_number_narrow(right.lineno, lw);
}

} // verus!
