//! What reaches the screen of the rows in view, said of their texts.

use crate::columns::capped;
use crate::gutter::{blanks, left_blank_runs, right_blank_runs};
use crate::rows::{ColumnsRow, InputPlacement, Row, SbsRowMeta};
use crate::style::{
    cells, lemma_cells_concat, lemma_push_run, lemma_width_concat, runs, runs_width, Cell, Line,
    Run, Span, Style,
};
use crate::theme::Theme;
use crate::unicode::display_width;
use crate::viewport::{
    annotation_offset, column_runs, cursor_on_screen, direct_runs, first_screen_rows, runs_at,
    screen_rows, visual_row, RowWraps,
};
use vstd::prelude::*;

verus! {

/// Spaces in a style.
pub open spec fn space(n: int, style: Style) -> Seq<Cell> {
    Seq::new(
        if n < 0 {
            0
        } else {
            n as nat
        },
        |i: int| (' ', style),
    )
}

/// What spans show, cell by cell.
pub open spec fn shown(spans: Seq<Span>) -> Seq<Cell> {
    cells(runs(spans))
}

/// The wrapped line with index `k`, followed by spaces up to the column's
/// width; spaces alone past the last line.
pub open spec fn column_cells(
    lines: Seq<Line>,
    k: int,
    content_width: int,
    pad_style: Style,
) -> Seq<Cell> {
    if k < lines.len() {
        shown(lines[k].spans@) + space(
            content_width - runs_width(runs(lines[k].spans@)),
            pad_style,
        )
    } else {
        space(content_width, pad_style)
    }
}

proof fn lemma_column_cells(lines: Seq<Line>, k: int, content_width: int, pad_style: Style)
    requires
        0 <= k,
    ensures
        cells(column_runs(lines, k, content_width, pad_style)) == column_cells(
            lines,
            k,
            content_width,
            pad_style,
        ),
{
    let row = runs_at(lines, k);
    let columns = runs_width(row);
    if columns < content_width {
        lemma_push_run(row, (blanks(content_width - columns), pad_style));
    }
    assert(cells(Seq::<Run>::empty()) =~= Seq::<Cell>::empty());
    assert(cells(column_runs(lines, k, content_width, pad_style)) =~= column_cells(
        lines,
        k,
        content_width,
        pad_style,
    ));
}

/// No wrapped text is lost: a row of two columns takes as many screen rows as
/// its longer column, and one where both are empty. Each wrapped line of either
/// column stands on the screen row with its index: behind the row's own prefix
/// on the first, behind a blank one, with the divider between the columns, on
/// the others.
pub proof fn lemma_no_wrapped_text_is_lost(
    columns: ColumnsRow,
    wraps: RowWraps,
    content_width: int,
    theme: Theme,
    lw: int,
)
    requires
        0 <= lw,
    ensures
        ({
            let meta = columns.meta;
            let left = wraps.left@;
            let right = wraps.right@;
            let rows = screen_rows(Row::Columns(columns), wraps, content_width, theme, lw);
            let plain = Style { fg: None, bg: None, add_modifier: 0, sub_modifier: 0 };
            let divider: Seq<Cell> = seq![
                (' ', theme.dim_style),
                ('\u{2502}', theme.dim_style),
                (' ', theme.dim_style),
            ];
            &&& rows.len() >= left.len()
            &&& rows.len() >= right.len()
            &&& rows.len() >= 1
            &&& rows.len() == left.len() || rows.len() == right.len() || left.len() == 0
                && right.len() == 0 && rows.len() == 1
            &&& forall|k: int|
                0 <= k < rows.len() ==> cells(#[trigger] rows[k]) == (if k == 0 {
                    shown(meta.left_prefix@)
                } else {
                    space(lw + 3, plain)
                }) + column_cells(left, k, content_width, meta.left_pad_style) + (if k == 0 {
                    shown(meta.right_prefix@)
                } else {
                    divider + space(lw + 2, plain)
                }) + column_cells(right, k, content_width, meta.right_pad_style)
        }),
{
    let meta = columns.meta;
    let left = wraps.left@;
    let right = wraps.right@;
    let rows = screen_rows(Row::Columns(columns), wraps, content_width, theme, lw);
    let plain = Style { fg: None, bg: None, add_modifier: 0, sub_modifier: 0 };
    let divider: Seq<Cell> = seq![
        (' ', theme.dim_style),
        ('\u{2502}', theme.dim_style),
        (' ', theme.dim_style),
    ];
    reveal_with_fuel(cells, 3);
    assert(cells(left_blank_runs(lw)) =~= space(lw + 3, plain));
    assert(cells(right_blank_runs(theme, lw)) =~= divider + space(lw + 2, plain));
    assert forall|k: int| 0 <= k < rows.len() implies cells(#[trigger] rows[k]) == (if k == 0 {
        shown(meta.left_prefix@)
    } else {
        space(lw + 3, plain)
    }) + column_cells(left, k, content_width, meta.left_pad_style) + (if k == 0 {
        shown(meta.right_prefix@)
    } else {
        divider + space(lw + 2, plain)
    }) + column_cells(right, k, content_width, meta.right_pad_style) by {
        let a = if k == 0 {
            runs(meta.left_prefix@)
        } else {
            left_blank_runs(lw)
        };
        let b = column_runs(left, k, content_width, meta.left_pad_style);
        let c = if k == 0 {
            runs(meta.right_prefix@)
        } else {
            right_blank_runs(theme, lw)
        };
        let d = column_runs(right, k, content_width, meta.right_pad_style);
        lemma_column_cells(left, k, content_width, meta.left_pad_style);
        lemma_column_cells(right, k, content_width, meta.right_pad_style);
        lemma_cells_concat(a, b);
        lemma_cells_concat(c, d);
        lemma_cells_concat(a + b, c + d);
        assert(rows[k] == (a + b) + (c + d));
        assert(cells(a) + cells(b) + (cells(c) + cells(d)) =~= cells(a) + cells(b) + cells(c)
            + cells(d));
    }
}

/// A row over the full width takes the screen rows that its text wraps to, as
/// they are.
pub proof fn lemma_full_rows_wrap_as_they_are(
    row: Row,
    wraps: RowWraps,
    content_width: int,
    theme: Theme,
    lw: int,
    k: int,
)
    requires
        !(row is Columns),
        0 <= k < wraps.full@.len(),
    ensures
        screen_rows(row, wraps, content_width, theme, lw).len() == wraps.full@.len(),
        cells(screen_rows(row, wraps, content_width, theme, lw)[k]) == shown(
            wraps.full@[k].spans@,
        ),
{
}

/// Screen rows stand in the order of their rows: those of a row follow those of
/// all rows before it.
pub proof fn lemma_screen_rows_stand_in_order(
    rows: Seq<Row>,
    start: int,
    wraps: Seq<RowWraps>,
    content_width: int,
    theme: Theme,
    lw: int,
    n: int,
    m: int,
    k: int,
)
    requires
        0 <= n < m,
        0 <= k < screen_rows(rows[start + n], wraps[n], content_width, theme, lw).len(),
    ensures
        ({
            let before = first_screen_rows(rows, start, wraps, content_width, theme, lw, n);
            let all = first_screen_rows(rows, start, wraps, content_width, theme, lw, m);
            let here = screen_rows(rows[start + n], wraps[n], content_width, theme, lw);
            &&& first_screen_rows(rows, start, wraps, content_width, theme, lw, 0).len() == 0
            &&& m == n + 1 ==> all.len() == before.len() + here.len()
            &&& before.len() + k < all.len()
            &&& all[before.len() + k] == here[k]
        }),
    decreases m,
{
    if n < m - 1 {
        lemma_screen_rows_stand_in_order(
            rows,
            start,
            wraps,
            content_width,
            theme,
            lw,
            n,
            m - 1,
            k,
        );
    }
}

/// Where lines do not wrap, a row shows its left prefix, its left cell, its
/// right prefix and its right cell, in this order and nothing else.
pub proof fn lemma_row_shows_both_columns(
    meta: SbsRowMeta,
    left_cell: Seq<Run>,
    right_cell: Seq<Run>,
)
    ensures
        cells(direct_runs(meta@, left_cell, right_cell)) == shown(meta.left_prefix@) + cells(
            left_cell,
        ) + shown(meta.right_prefix@) + cells(right_cell),
{
    let a = runs(meta.left_prefix@);
    let c = runs(meta.right_prefix@);
    lemma_cells_concat(a, left_cell);
    lemma_cells_concat(a + left_cell, c);
    lemma_cells_concat(a + left_cell + c, right_cell);
}

/// The text cursor is on screen where its row is one of those in view; a panel
/// that shows no row counts as showing one.
pub proof fn lemma_cursor_is_on_screen_with_its_row(cursor: int, scroll: int, count: int)
    requires
        0 <= count,
    ensures
        0 < count ==> (cursor_on_screen(cursor, scroll, count) <==> scroll <= cursor && cursor
            < scroll + count),
        cursor_on_screen(cursor, scroll, 0) <==> cursor == scroll,
{
}

/// The text cursor stands on the first screen row of its row: as far down as
/// the rows above it take screen rows, or as many rows where lines do not wrap.
pub proof fn lemma_cursor_stands_on_its_row(
    rows: Seq<Row>,
    start: int,
    wraps: Seq<RowWraps>,
    content_width: int,
    theme: Theme,
    lw: int,
    heights: Seq<usize>,
    n: int,
    width: int,
)
    requires
        0 <= n <= heights.len(),
        n <= u16::MAX,
        forall|i: int|
            0 <= i < heights.len() ==> #[trigger] heights[i] == screen_rows(
                rows[start + i],
                wraps[i],
                content_width,
                theme,
                lw,
            ).len() && heights[i] <= u16::MAX,
    ensures
        0 < width ==> visual_row(n, true, width, heights) == first_screen_rows(
            rows,
            start,
            wraps,
            content_width,
            theme,
            lw,
            n,
        ).len(),
        visual_row(n, false, width, heights) == n,
        visual_row(n, true, 0, heights) == n,
    decreases n,
{
    if n > 0 {
        lemma_cursor_stands_on_its_row(
            rows,
            start,
            wraps,
            content_width,
            theme,
            lw,
            heights,
            n - 1,
            width,
        );
        assert(heights[n - 1] == screen_rows(
            rows[start + (n - 1)],
            wraps[n - 1],
            content_width,
            theme,
            lw,
        ).len());
        assert(visual_row(n, true, 1, heights) == visual_row(n - 1, true, 1, heights)
            + heights[n - 1]);
    }
}

/// A row whose height is not known counts as one screen row.
pub proof fn lemma_unknown_heights_count_one(heights: Seq<usize>, n: int, width: int)
    requires
        heights.len() <= n,
        0 < width,
    ensures
        visual_row(n, true, width, heights) == visual_row(
            heights.len() as int,
            true,
            width,
            heights,
        ) + (n - heights.len()),
    decreases n,
{
    if heights.len() < n {
        lemma_unknown_heights_count_one(heights, n - 1, width);
    }
}

/// Annotations learn of the input box, where there is one, its first row, how
/// many rows it stands for, and in place of how many.
pub proof fn lemma_annotations_learn_of_the_input_box(input: Option<InputPlacement>)
    ensures
        annotation_offset(input) is Some <==> input is Some,
        match annotation_offset(input) {
            Some((top, len, replaced)) => top == input->0.box_start && len
                == input->0.annotation_len && replaced == input->0.annotations_replaced,
            None => true,
        },
{
}

/// Runs take the columns of their texts, added up.
pub proof fn lemma_widths_add_up(row: Seq<Run>, more: Seq<Run>, text: Seq<char>, style: Style)
    ensures
        runs_width(row + more) == runs_width(row) + runs_width(more),
        runs_width(seq![(text, style)]) == display_width(text),
        runs_width(Seq::empty()) == 0,
{
    lemma_width_concat(row, more);
    lemma_push_run(Seq::empty(), (text, style));
    assert(Seq::<Run>::empty().push((text, style)) =~= seq![(text, style)]);
}

/// A width is counted as it is, as far as it can be counted.
pub proof fn lemma_widths_are_counted(n: nat)
    ensures
        n <= usize::MAX ==> capped(n) == n,
        n > usize::MAX ==> capped(n) == usize::MAX,
{
}

} // verus!
