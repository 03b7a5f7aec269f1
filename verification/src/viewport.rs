//! The part of a side-by-side diff that is on screen: which rows, how they
//! wrap, how far they scroll, and where the text cursor is.

use crate::columns::{capped, measure, pad_spans_to_width, padded_runs};
use crate::gutter::{
    divider_text, indicator_text, left_blank_runs, left_prefix_runs, lemma_prefixes_aligned,
    number_fits, right_blank_runs, right_prefix_runs, sbs_blank_prefixes, SideSpec,
};
use crate::laws::same_text;
use crate::rows::{ColumnsRow, InputPlacement, MetaView, Row, SbsRowMeta, SideBySideRows};
use crate::style::{
    cells, copy_spans, extend_spans, lemma_width_concat, narrow_runs, runs, runs_width, Line, Run,
    Span, Style,
};
use crate::theme::Theme;
use std::ops::Range;
use vstd::prelude::*;

verus! {

/// The indices of the rows on screen: as many as fit below the first one, as
/// far as there are rows.
pub fn visible_rows(len: usize, scroll_offset: usize, height: usize) -> (rows: Range<usize>)
    ensures
        rows.start == (if scroll_offset < len {
            scroll_offset
        } else {
            len
        }),
        rows.end == (if rows.start + height < len {
            rows.start + height
        } else {
            len as int
        }),
        forall|i: int|
            rows.start <= i < rows.end <==> 0 <= i < len && #[trigger] in_window(
                i,
                scroll_offset as int,
                height as int,
            ),
{
    let start: usize = if scroll_offset < len {
        scroll_offset
    } else {
        len
    };
    let end: usize = if height < len - start {
        start + height
    } else {
        len
    };
    Range { start, end }
}

/// Whether a row lies in a window of `height` rows from `top` on.
pub open spec fn in_window(row: int, top: int, height: int) -> bool {
    top <= row < top + height
}

/// What a row of two columns shows, each cell cut to its column, behind their
/// prefixes.
pub open spec fn direct_runs(meta: MetaView, left_cell: Seq<Run>, right_cell: Seq<Run>) -> Seq<
    Run,
> {
    meta.left_prefix + left_cell + meta.right_prefix + right_cell
}

/// A row of two columns, each cell cut to its column, behind their prefixes.
pub fn direct_row(meta: &SbsRowMeta, left_cell: &Vec<Span>, right_cell: &Vec<Span>) -> (line: Line)
    ensures
        runs(line.spans@) == direct_runs(meta@, runs(left_cell@), runs(right_cell@)),
{
    let mut spans = copy_spans(&meta.left_prefix);
    extend_spans(&mut spans, left_cell);
    extend_spans(&mut spans, &meta.right_prefix);
    extend_spans(&mut spans, right_cell);
    Line { spans }
}

/// The display width of each line.
pub fn line_widths(lines: &Vec<Line>) -> (widths: Vec<usize>)
    ensures
        widths@.len() == lines@.len(),
        forall|i: int|
            0 <= i < lines@.len() ==> #[trigger] widths@[i] == capped(
                runs_width(runs(lines@[i].spans@)),
            ),
{
    let mut widths: Vec<usize> = Vec::new();
    let mut i: usize = 0;
    while i < lines.len()
        invariant
            i <= lines.len(),
            widths@.len() == i,
            forall|j: int|
                0 <= j < i ==> #[trigger] widths@[j] == capped(
                    runs_width(runs(lines@[j].spans@)),
                ),
        decreases lines.len() - i,
    {
        widths.push(measure(&lines[i].spans));
        i = i + 1;
    }
    widths
}

/// The widest of the widths, or zero where there are none.
pub fn max_content_width(widths: &Vec<usize>) -> (max: usize)
    ensures
        forall|i: int| 0 <= i < widths@.len() ==> #[trigger] widths@[i] <= max,
        max == 0 || widths@.contains(max),
{
    let mut max: usize = 0;
    let mut i: usize = 0;
    while i < widths.len()
        invariant
            i <= widths.len(),
            forall|j: int| 0 <= j < i ==> #[trigger] widths@[j] <= max,
            max == 0 || widths@.contains(max),
        decreases widths.len() - i,
    {
        if widths[i] > max {
            max = widths[i];
            assert(widths@[i as int] == max);
        }
        i = i + 1;
    }
    max
}

/// How far the rows are scrolled sideways: as asked, but no further than the
/// widest row needs, and not at all where lines wrap.
pub fn clamp_scroll_x(
    scroll_x: usize,
    max_content_width: usize,
    viewport_width: usize,
    wrap_lines: bool,
) -> (clamped: usize)
    ensures
        wrap_lines ==> clamped == 0,
        !wrap_lines ==> clamped == (if scroll_x + viewport_width <= max_content_width {
            scroll_x as int
        } else if viewport_width <= max_content_width {
            max_content_width - viewport_width
        } else {
            0
        }),
        clamped <= scroll_x,
        clamped == 0 || clamped + viewport_width <= max_content_width,
        !wrap_lines && clamped < scroll_x ==> max_content_width < scroll_x + viewport_width,
{
    let max_scroll_x: usize = max_content_width.saturating_sub(viewport_width);
    if wrap_lines {
        0
    } else if scroll_x > max_scroll_x {
        max_scroll_x
    } else {
        scroll_x
    }
}

/// The texts of a row, wrapped: those of its columns, or that of the full row.
/// A column without content has none.
#[derive(Debug)]
pub struct RowWraps {
    pub left: Vec<Line>,
    pub right: Vec<Line>,
    pub full: Vec<Line>,
}

/// A wrapped text's row, nothing past its end.
pub open spec fn runs_at(lines: Seq<Line>, k: int) -> Seq<Run> {
    if 0 <= k < lines.len() {
        runs(lines[k].spans@)
    } else {
        Seq::empty()
    }
}

/// How many screen rows two wrapped columns take.
pub open spec fn columns_height(left: Seq<Line>, right: Seq<Line>) -> int {
    if left.len() == 0 && right.len() == 0 {
        1
    } else if left.len() >= right.len() {
        left.len() as int
    } else {
        right.len() as int
    }
}

/// One side of a screen row: the wrapped text, padded to its column.
pub open spec fn column_runs(
    lines: Seq<Line>,
    k: int,
    content_width: int,
    pad_style: Style,
) -> Seq<Run> {
    let row = runs_at(lines, k);
    padded_runs(row, runs_width(row), content_width, pad_style)
}

/// The left part of the screen row with index `k` of two wrapped columns, up to
/// the divider.
pub open spec fn left_part(
    meta: SbsRowMeta,
    wraps: RowWraps,
    k: int,
    content_width: int,
    lw: int,
) -> Seq<Run> {
    (if k == 0 {
        meta@.left_prefix
    } else {
        left_blank_runs(lw)
    }) + column_runs(wraps.left@, k, content_width, meta.left_pad_style)
}

/// The right part of the screen row, from the divider on.
pub open spec fn right_part(
    meta: SbsRowMeta,
    wraps: RowWraps,
    k: int,
    content_width: int,
    theme: Theme,
    lw: int,
) -> Seq<Run> {
    (if k == 0 {
        meta@.right_prefix
    } else {
        right_blank_runs(theme, lw)
    }) + column_runs(wraps.right@, k, content_width, meta.right_pad_style)
}

/// The screen row with index `k` of two wrapped columns: the first has the
/// row's prefixes, the others blank ones.
pub open spec fn wrapped_runs(
    meta: SbsRowMeta,
    wraps: RowWraps,
    k: int,
    content_width: int,
    theme: Theme,
    lw: int,
) -> Seq<Run> {
    left_part(meta, wraps, k, content_width, lw) + right_part(
        meta,
        wraps,
        k,
        content_width,
        theme,
        lw,
    )
}

/// The terminal columns of the left part: the gutter, and the wrapped text or
/// the column, whichever is wider.
pub open spec fn left_part_width(
    meta: SbsRowMeta,
    wraps: RowWraps,
    k: int,
    content_width: int,
    lw: int,
) -> int {
    let gutter = if k == 0 {
        runs_width(meta@.left_prefix) as int
    } else {
        lw + 3
    };
    let text = runs_width(runs_at(wraps.left@, k)) as int;
    gutter + if text < content_width {
        content_width
    } else {
        text
    }
}

/// Whether the left parts of all screen rows of two wrapped columns have the
/// width that the gutter and the column give, and a gutter of characters of one
/// column each is as wide as it has cells.
pub open spec fn left_parts_measured(
    meta: SbsRowMeta,
    wraps: RowWraps,
    content_width: int,
    lw: int,
) -> bool {
    &&& narrow_runs(meta@.left_prefix) ==> runs_width(meta@.left_prefix) == cells(
        meta@.left_prefix,
    ).len()
    &&& forall|k: int|
        0 <= k < columns_height(wraps.left@, wraps.right@) ==> runs_width(
            #[trigger] left_part(meta, wraps, k, content_width, lw),
        ) == left_part_width(meta, wraps, k, content_width, lw)
}

/// The screen rows of a row.
pub open spec fn screen_rows(
    row: Row,
    wraps: RowWraps,
    content_width: int,
    theme: Theme,
    lw: int,
) -> Seq<Seq<Run>> {
    match row {
        Row::Columns(columns) => Seq::new(
            columns_height(wraps.left@, wraps.right@) as nat,
            |k: int| wrapped_runs(columns.meta, wraps, k, content_width, theme, lw),
        ),
        _ => line_runs(wraps.full@),
    }
}

/// What lines show.
pub open spec fn line_runs(lines: Seq<Line>) -> Seq<Seq<Run>> {
    Seq::new(lines.len(), |i: int| runs(lines[i].spans@))
}

/// The screen rows of the first `n` rows from `start` on.
pub open spec fn first_screen_rows(
    rows: Seq<Row>,
    start: int,
    wraps: Seq<RowWraps>,
    content_width: int,
    theme: Theme,
    lw: int,
    n: int,
) -> Seq<Seq<Run>>
    decreases n,
{
    if n <= 0 {
        Seq::empty()
    } else {
        first_screen_rows(rows, start, wraps, content_width, theme, lw, n - 1) + screen_rows(
            rows[start + n - 1],
            wraps[n - 1],
            content_width,
            theme,
            lw,
        )
    }
}

/// A copy of the spans of a wrapped text's row.
fn copy_spans_at(lines: &Vec<Line>, k: usize) -> (spans: Vec<Span>)
    ensures
        runs(spans@) == runs_at(lines@, k as int),
{
    if k < lines.len() {
        copy_spans(&lines[k].spans)
    } else {
        let none: Vec<Span> = Vec::new();
        assert(runs(none@) =~= Seq::<Run>::empty());
        none
    }
}

/// Append the screen rows of two wrapped columns.
fn push_wrapped_columns(
    meta: &SbsRowMeta,
    wraps: &RowWraps,
    content_width: usize,
    theme: &Theme,
    lw: usize,
    out: &mut Vec<Line>,
) -> (height: usize)
    requires
        lw + 3 <= usize::MAX,
    ensures
        height == columns_height(wraps.left@, wraps.right@),
        left_parts_measured(*meta, *wraps, content_width as int, lw as int),
        line_runs(final(out)@) == line_runs(old(out)@) + Seq::new(
            height as nat,
            |k: int|
                wrapped_runs(*meta, *wraps, k, content_width as int, *theme, lw as int),
        ),
{
    let ghost more = Seq::new(
        columns_height(wraps.left@, wraps.right@) as nat,
        |k: int| wrapped_runs(*meta, *wraps, k, content_width as int, *theme, lw as int),
    );
    let longer: usize = if wraps.left.len() >= wraps.right.len() {
        wraps.left.len()
    } else {
        wraps.right.len()
    };
    let height: usize = if longer == 0 {
        1
    } else {
        longer
    };
    let _gutter: usize = measure(&meta.left_prefix);
    let mut k: usize = 0;
    assert(line_runs(out@) =~= line_runs(old(out)@) + more.take(0));
    while k < height
        invariant
            k <= height,
            height == columns_height(wraps.left@, wraps.right@),
            lw + 3 <= usize::MAX,
            forall|j: int|
                0 <= j < k ==> runs_width(
                    #[trigger] left_part(*meta, *wraps, j, content_width as int, lw as int),
                ) == left_part_width(*meta, *wraps, j, content_width as int, lw as int),
            more == Seq::new(
                columns_height(wraps.left@, wraps.right@) as nat,
                |k: int|
                    wrapped_runs(*meta, *wraps, k, content_width as int, *theme, lw as int),
            ),
            line_runs(out@) == line_runs(old(out)@) + more.take(k as int),
        decreases height - k,
    {
        let left = pad_spans_to_width(
            copy_spans_at(&wraps.left, k),
            content_width,
            meta.left_pad_style,
        );
        let right = pad_spans_to_width(
            copy_spans_at(&wraps.right, k),
            content_width,
            meta.right_pad_style,
        );
        let (left_prefix, right_prefix) = if k == 0 {
            (copy_spans(&meta.left_prefix), copy_spans(&meta.right_prefix))
        } else {
            sbs_blank_prefixes(theme, lw)
        };
        proof {
            lemma_width_concat(runs(left_prefix@), runs(left@));
        }
        let mut spans = left_prefix;
        extend_spans(&mut spans, &left);
        extend_spans(&mut spans, &right_prefix);
        extend_spans(&mut spans, &right);
        let ghost before = line_runs(out@);
        out.push(Line { spans });
        proof {
            assert(line_runs(out@) =~= before.push(runs(spans@)));
            assert(runs(spans@) =~= more[k as int]);
            assert(line_runs(out@) =~= line_runs(old(out)@) + more.take(k + 1));
        }
        k = k + 1;
    }
    assert(more.take(k as int) =~= more);
    height
}

/// Append lines.
fn push_all(lines: &Vec<Line>, out: &mut Vec<Line>)
    ensures
        line_runs(final(out)@) == line_runs(old(out)@) + line_runs(lines@),
{
    let ghost more = line_runs(lines@);
    let mut k: usize = 0;
    assert(line_runs(out@) =~= line_runs(old(out)@) + more.take(0));
    while k < lines.len()
        invariant
            k <= lines.len(),
            more == line_runs(lines@),
            line_runs(out@) == line_runs(old(out)@) + more.take(k as int),
        decreases lines.len() - k,
    {
        let ghost before = line_runs(out@);
        let spans = copy_spans(&lines[k].spans);
        out.push(Line { spans });
        proof {
            assert(line_runs(out@) =~= before.push(runs(spans@)));
            assert(line_runs(out@) =~= line_runs(old(out)@) + more.take(k + 1));
        }
        k = k + 1;
    }
    assert(more.take(k as int) =~= more);
}

/// The screen rows of wrapped rows and how many each row takes, in a single
/// pass, so the two can't disagree.
pub fn wrap_rows(
    rows: &Vec<Row>,
    start: usize,
    wraps: &Vec<RowWraps>,
    content_width: usize,
    theme: &Theme,
    lw: usize,
) -> (wrapped: (Vec<usize>, Vec<Line>))
    requires
        start + wraps@.len() <= rows@.len(),
        lw + 3 <= usize::MAX,
    ensures
        wrapped.0@.len() == wraps@.len(),
        forall|i: int|
            0 <= i < wraps@.len() ==> #[trigger] wrapped.0@[i] == screen_rows(
                rows@[start + i],
                wraps@[i],
                content_width as int,
                *theme,
                lw as int,
            ).len(),
        forall|i: int|
            0 <= i < wraps@.len() && #[trigger] rows@[start + i] is Columns
                ==> left_parts_measured(
                rows@[start + i]->Columns_0.meta,
                wraps@[i],
                content_width as int,
                lw as int,
            ),
        line_runs(wrapped.1@) == first_screen_rows(
            rows@,
            start as int,
            wraps@,
            content_width as int,
            *theme,
            lw as int,
            wraps@.len() as int,
        ),
{
    let mut heights: Vec<usize> = Vec::new();
    let mut out: Vec<Line> = Vec::new();
    let mut i: usize = 0;
    assert(line_runs(out@) =~= Seq::<Seq<Run>>::empty());
    while i < wraps.len()
        invariant
            i <= wraps.len(),
            start + wraps@.len() <= rows@.len(),
            lw + 3 <= usize::MAX,
            heights@.len() == i,
            forall|j: int|
                0 <= j < i ==> #[trigger] heights@[j] == screen_rows(
                    rows@[start + j],
                    wraps@[j],
                    content_width as int,
                    *theme,
                    lw as int,
                ).len(),
            forall|j: int|
                0 <= j < i && #[trigger] rows@[start + j] is Columns ==> left_parts_measured(
                    rows@[start + j]->Columns_0.meta,
                    wraps@[j],
                    content_width as int,
                    lw as int,
                ),
            line_runs(out@) == first_screen_rows(
                rows@,
                start as int,
                wraps@,
                content_width as int,
                *theme,
                lw as int,
                i as int,
            ),
        decreases wraps.len() - i,
    {
        assert(start + i < rows.len());
        match &rows[start + i] {
            Row::Columns(columns) => {
                let height: usize = push_wrapped_columns(
                    &columns.meta,
                    &wraps[i],
                    content_width,
                    theme,
                    lw,
                    &mut out,
                );
                heights.push(height);
            },
            _ => {
                push_all(&wraps[i].full, &mut out);
                heights.push(wraps[i].full.len());
            },
        }
        i = i + 1;
    }
    (heights, out)
}

/// One screen row for each of `len` rows, where lines do not wrap.
pub fn plain_heights(len: usize) -> (heights: Vec<usize>)
    ensures
        heights@ == Seq::new(len as nat, |i: int| 1usize),
{
    let mut heights: Vec<usize> = Vec::new();
    let mut i: usize = 0;
    while i < len
        invariant
            i <= len,
            heights@ == Seq::new(i as nat, |i: int| 1usize),
        decreases len - i,
    {
        heights.push(1);
        i = i + 1;
        assert(heights@ =~= Seq::new(i as nat, |i: int| 1usize));
    }
    heights
}

/// The screen rows that the first `n` rows take, each counted in sixteen bits;
/// a row of unknown height counts one.
pub open spec fn screen_offset(heights: Seq<usize>, n: int) -> int
    decreases n,
{
    if n <= 0 {
        0
    } else {
        screen_offset(heights, n - 1) + (if n - 1 < heights.len() {
            (heights[n - 1] as u16) as int
        } else {
            1
        })
    }
}

/// The screen rows between the top of the panel and a row `offset` rows below.
pub open spec fn visual_row(
    offset: int,
    wrap_lines: bool,
    viewport_width: int,
    heights: Seq<usize>,
) -> int {
    if wrap_lines && viewport_width > 0 {
        screen_offset(heights, offset)
    } else {
        (offset as u16) as int
    }
}

/// Whether the cursor's row is among the rows on screen.
pub open spec fn cursor_on_screen(
    cursor_line: int,
    scroll_offset: int,
    visible_line_count: int,
) -> bool {
    in_window(
        cursor_line,
        scroll_offset,
        if visible_line_count == 0 {
            1
        } else {
            visible_line_count
        },
    )
}

/// The screen position of the text cursor, where its row is on screen. `x` and
/// `y` are the panel's corner.
pub fn comment_cursor_screen_pos(
    cursor_line: usize,
    cursor_column: u16,
    scroll_offset: usize,
    visible_line_count: usize,
    wrap_lines: bool,
    viewport_width: usize,
    heights: &Vec<usize>,
    x: u16,
    y: u16,
) -> (position: Option<(u16, u16)>)
    requires
        cursor_on_screen(cursor_line as int, scroll_offset as int, visible_line_count as int) ==> {
            &&& x + cursor_column <= u16::MAX
            &&& y + visual_row(
                cursor_line - scroll_offset,
                wrap_lines,
                viewport_width as int,
                heights@,
            ) <= u16::MAX
        },
    ensures
        match position {
            Some((column, row)) => {
                &&& cursor_on_screen(
                    cursor_line as int,
                    scroll_offset as int,
                    visible_line_count as int,
                )
                &&& column == x + cursor_column
                &&& row == y + visual_row(
                    cursor_line - scroll_offset,
                    wrap_lines,
                    viewport_width as int,
                    heights@,
                )
            },
            None => !cursor_on_screen(
                cursor_line as int,
                scroll_offset as int,
                visible_line_count as int,
            ),
        },
{
    let count: usize = if visible_line_count == 0 {
        1
    } else {
        visible_line_count
    };
    if cursor_line < scroll_offset || cursor_line - scroll_offset >= count {
        return None;
    }
    let offset: usize = cursor_line - scroll_offset;
    let mut row: u16 = 0;
    if wrap_lines && viewport_width > 0 {
        let mut i: usize = 0;
        while i < offset
            invariant
                i <= offset,
                row == screen_offset(heights@, i as int),
                y + screen_offset(heights@, offset as int) <= u16::MAX,
            decreases offset - i,
        {
            proof {
                lemma_offset_grows(heights@, i + 1, offset as int);
            }
            let height: u16 = if i < heights.len() {
                heights[i] as u16
            } else {
                1
            };
            row = row + height;
            i = i + 1;
        }
    } else {
        row = offset as u16;
    }
    Some((x + cursor_column, y + row))
}

/// More rows take no fewer screen rows.
proof fn lemma_offset_grows(heights: Seq<usize>, i: int, j: int)
    requires
        i <= j,
    ensures
        screen_offset(heights, i) <= screen_offset(heights, j),
    decreases j - i,
{
    if i < j {
        lemma_offset_grows(heights, i, j - 1);
    }
}

/// The sum of the first `n` heights.
pub open spec fn total(heights: Seq<usize>, n: int) -> int
    decreases n,
{
    if n <= 0 {
        0
    } else {
        total(heights, n - 1) + heights[n - 1]
    }
}

/// Heights and screen rows cannot disagree: together the rows take as many
/// screen rows as there are.
pub proof fn lemma_heights_count_screen_rows(
    rows: Seq<Row>,
    start: int,
    wraps: Seq<RowWraps>,
    content_width: int,
    theme: Theme,
    lw: int,
    heights: Seq<usize>,
    n: int,
)
    requires
        n <= heights.len(),
        forall|i: int|
            0 <= i < heights.len() ==> #[trigger] heights[i] == screen_rows(
                rows[start + i],
                wraps[i],
                content_width,
                theme,
                lw,
            ).len(),
    ensures
        first_screen_rows(rows, start, wraps, content_width, theme, lw, n).len() == total(
            heights,
            n,
        ),
    decreases n,
{
    if n > 0 {
        lemma_heights_count_screen_rows(
            rows,
            start,
            wraps,
            content_width,
            theme,
            lw,
            heights,
            n - 1,
        );
        assert(heights[n - 1] == screen_rows(
            rows[start + (n - 1)],
            wraps[n - 1],
            content_width,
            theme,
            lw,
        ).len());
    }
}

/// The divider stays aligned on every screen row of wrapped columns, in columns
/// of the terminal and so for wide characters too: where the left line
/// number and the wrapped text fit their columns, the left part of a wrapped
/// row takes gutter and column, and the divider starts right after it.
pub proof fn lemma_divider_aligned(
    meta: SbsRowMeta,
    row: int,
    cursor: int,
    left: SideSpec,
    right: SideSpec,
    number_style: Style,
    wraps: RowWraps,
    k: int,
    content_width: int,
    theme: Theme,
    lw: int,
)
    requires
        lw >= 0,
        0 <= k < columns_height(wraps.left@, wraps.right@),
        left_parts_measured(meta, wraps, content_width, lw),
        meta@.left_prefix == left_prefix_runs(
            theme,
            indicator_text(row, cursor),
            left,
            number_style,
            lw,
        ),
        meta@.right_prefix == right_prefix_runs(theme, right, number_style, lw),
        number_fits(left.lineno, lw),
        runs_width(runs_at(wraps.left@, k)) <= content_width,
    ensures
        wrapped_runs(meta, wraps, k, content_width, theme, lw) == left_part(
            meta,
            wraps,
            k,
            content_width,
            lw,
        ) + right_part(meta, wraps, k, content_width, theme, lw),
        runs_width(left_part(meta, wraps, k, content_width, lw)) == lw + 3 + content_width,
        right_part(meta, wraps, k, content_width, theme, lw).len() > 0,
        right_part(meta, wraps, k, content_width, theme, lw)[0] == (
            divider_text(),
            theme.dim_style,
        ),
{
    lemma_prefixes_aligned(theme, row, cursor, left, left, number_style, lw);
}

/// A row whose texts fit their columns looks the same whether lines wrap or
/// not: wrapped to one line each, and padded where they are not wrapped, its
/// texts show the same runs, and so the same characters are marked.
pub proof fn lemma_fitting_row_looks_the_same(
    row: ColumnsRow,
    wraps: RowWraps,
    content_width: int,
    theme: Theme,
    lw: int,
)
    requires
        same_text(Row::Columns(row)@),
        wraps.left@.len() <= 1,
        wraps.right@.len() <= 1,
        runs_at(wraps.left@, 0) == row.meta@.left_content,
        runs_at(wraps.right@, 0) == row.meta@.right_content,
    ensures
        ({
            let left = runs(row.left_cell@);
            let right = runs(row.right_cell@);
            screen_rows(Row::Columns(row), wraps, content_width, theme, lw) == seq![
                direct_runs(
                    row.meta@,
                    padded_runs(left, runs_width(left), content_width, row.meta.left_pad_style),
                    padded_runs(right, runs_width(right), content_width, row.meta.right_pad_style),
                ),
            ]
        }),
{
    let left = runs(row.left_cell@);
    let right = runs(row.right_cell@);
    assert(wrapped_runs(row.meta, wraps, 0, content_width, theme, lw) =~= direct_runs(
        row.meta@,
        padded_runs(left, runs_width(left), content_width, row.meta.left_pad_style),
        padded_runs(right, runs_width(right), content_width, row.meta.right_pad_style),
    ));
}

/// What a frame leaves behind of the panel it drew.
#[derive(Debug)]
pub struct FrameState {
    pub viewport_height: usize,
    pub max_content_width: usize,
    pub scroll_x: usize,
    /// The first row of the input box, how many rows it takes, and in place of
    /// how many.
    pub comment_input_annotation_offset: Option<(usize, usize, usize)>,
}

/// What annotations need to know of the input box.
pub open spec fn annotation_offset(input: Option<InputPlacement>) -> Option<
    (usize, usize, usize),
> {
    match input {
        Some(p) => Some((p.box_start, p.annotation_len, p.annotations_replaced)),
        None => None,
    }
}

/// The state after a frame whose panel is `inner_width` by `inner_height`
/// inside its border and shows lines of the given widths.
pub fn frame_state(
    out: &SideBySideRows,
    inner_width: u16,
    inner_height: u16,
    widths: &Vec<usize>,
    scroll_x: usize,
    wrap_lines: bool,
) -> (state: FrameState)
    ensures
        state.viewport_height == inner_height,
        forall|i: int| 0 <= i < widths@.len() ==> #[trigger] widths@[i] <= state.max_content_width,
        state.max_content_width == 0 || widths@.contains(state.max_content_width),
        wrap_lines ==> state.scroll_x == 0,
        !wrap_lines ==> state.scroll_x == (if scroll_x + inner_width <= state.max_content_width {
            scroll_x as int
        } else if inner_width <= state.max_content_width {
            state.max_content_width - inner_width
        } else {
            0
        }),
        state.scroll_x == 0 || state.scroll_x + inner_width <= state.max_content_width,
        state.comment_input_annotation_offset == annotation_offset(out@.input),
{
    let max: usize = max_content_width(widths);
    FrameState {
        viewport_height: inner_height as usize,
        max_content_width: max,
        scroll_x: clamp_scroll_x(scroll_x, max, inner_width as usize, wrap_lines),
        comment_input_annotation_offset: match out.input {
            Some(p) => Some((p.box_start, p.annotation_len, p.annotations_replaced)),
            None => None,
        },
    }
}

} // verus!
