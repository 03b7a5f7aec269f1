//! The row of a diff line: deletions in the left column, additions in the
//! right, context in both.

use crate::columns::{
    column_pad_style, content_runs, content_spans_for_diff_line, lemma_unmarked_line, pad_style,
    pair_runs, plain_cell_spans, searched_cell_spans, searched_runs, source_runs,
};
use crate::context::SideBySideContext;
use crate::gutter::{
    cursor_indicator, indicator_text, left_prefix_runs, number_prefixes, right_prefix_runs,
    sbs_row_prefixes, Marker, SideSpec,
};
use crate::model::{DiffLine, LineOrigin};
use crate::rows::{ColumnsRow, Cut, MetaView, Row, RowView, SbsRowMeta, SideBySideRows};
use crate::style::{copy_spans, plain_style, runs, Run, Span, Style};
use crate::word_diff::{word_marks, word_ranges, WordRanges};
use std::ops::Range;
use vstd::prelude::*;

verus! {

/// The row of an expanded context line: the same text in both columns.
pub open spec fn expanded_row(ctx: SideBySideContext, dl: DiffLine, row: int) -> RowView {
    let style = ctx.theme.expanded_context_style;
    let lw = ctx.lineno_width as int;
    let indicator = indicator_text(row, ctx.current_line_idx as int);
    let content = searched_runs(
        seq![(dl.content@, style)],
        dl.search_matches@,
        ctx.search_style(row),
    );
    let left = SideSpec {
        lineno: ctx.lineno(dl.old_lineno, row),
        marker: Marker::Blank,
        marker_style: style,
    };
    let right = SideSpec { lineno: ctx.lineno(dl.new_lineno, row), ..left };
    RowView::Columns {
        left_cell: content,
        right_cell: content,
        cut: Cut::Chars,
        meta: MetaView {
            left_content: content,
            right_content: content,
            left_prefix: left_prefix_runs(ctx.theme, indicator, left, style, lw),
            right_prefix: right_prefix_runs(ctx.theme, right, style, lw),
            left_pad_style: style,
            right_pad_style: style,
        },
    }
}

/// Render a single expanded context line in side-by-side mode.
pub fn render_sbs_expanded_context_line(
    expanded_line: &DiffLine,
    ctx: &SideBySideContext,
    out: &mut SideBySideRows,
)
    ensures
        final(out)@ == old(out)@.with_row(expanded_row(*ctx, *expanded_line, old(out)@.len())),
{
    let row: usize = out.rows.len();
    let style = ctx.theme.expanded_context_style;
    let search = ctx.search_for(row);
    let left = SideSpec {
        lineno: ctx.display_lineno(expanded_line.old_lineno, row),
        marker: Marker::Blank,
        marker_style: style,
    };
    let right = SideSpec {
        lineno: ctx.display_lineno(expanded_line.new_lineno, row),
        marker: Marker::Blank,
        marker_style: style,
    };
    let indicator = cursor_indicator(row, ctx.current_line_idx);
    let (left_prefix, right_prefix) = number_prefixes(
        &ctx.theme,
        indicator,
        left,
        right,
        style,
        ctx.lineno_width,
    );
    let content = plain_cell_spans(
        expanded_line.content.as_str(),
        style,
        &expanded_line.search_matches,
        search,
    );
    out.push(
        Row::Columns(
            ColumnsRow {
                left_cell: copy_spans(&content),
                right_cell: copy_spans(&content),
                cut: Cut::Chars,
                meta: SbsRowMeta {
                    left_content: copy_spans(&content),
                    right_content: content,
                    left_prefix,
                    right_prefix,
                    left_pad_style: style,
                    right_pad_style: style,
                },
            },
        ),
    );
}

/// The text of a context line as its cells show it.
pub open spec fn context_cell(ctx: SideBySideContext, dl: DiffLine, row: int) -> Seq<Run> {
    searched_runs(
        match dl.highlighted_spans {
            Some(pairs) => pair_runs(pairs@),
            None => seq![(dl.content@, ctx.theme.diff_context_style)],
        },
        dl.search_matches@,
        ctx.search_style(row),
    )
}

/// The row of a context line: the same text in both columns.
pub open spec fn context_row(ctx: SideBySideContext, dl: DiffLine, row: int) -> RowView {
    let style = ctx.theme.diff_context_style;
    let lw = ctx.lineno_width as int;
    let indicator = indicator_text(row, ctx.current_line_idx as int);
    let cell = context_cell(ctx, dl, row);
    let content = content_runs(ctx.theme, dl, Seq::empty(), ctx.search_style(row));
    let left = SideSpec {
        lineno: ctx.lineno(dl.old_lineno, row),
        marker: Marker::Blank,
        marker_style: style,
    };
    let right = SideSpec { lineno: ctx.lineno(dl.new_lineno, row), ..left };
    RowView::Columns {
        left_cell: cell,
        right_cell: cell,
        cut: if dl.highlighted_spans is Some {
            Cut::Spans
        } else {
            Cut::Chars
        },
        meta: MetaView {
            left_content: content,
            right_content: content,
            left_prefix: left_prefix_runs(ctx.theme, indicator, left, ctx.theme.dim_style, lw),
            right_prefix: right_prefix_runs(ctx.theme, right, ctx.theme.dim_style, lw),
            left_pad_style: style,
            right_pad_style: style,
        },
    }
}

/// Append the row of a context line.
pub fn push_context_row(diff_line: &DiffLine, ctx: &SideBySideContext, out: &mut SideBySideRows)
    ensures
        final(out)@ == old(out)@.with_row(context_row(*ctx, *diff_line, old(out)@.len())),
{
    let row: usize = out.rows.len();
    let style = ctx.theme.diff_context_style;
    let search = ctx.search_for(row);
    let left = SideSpec {
        lineno: ctx.display_lineno(diff_line.old_lineno, row),
        marker: Marker::Blank,
        marker_style: style,
    };
    let right = SideSpec {
        lineno: ctx.display_lineno(diff_line.new_lineno, row),
        marker: Marker::Blank,
        marker_style: style,
    };
    let indicator = cursor_indicator(row, ctx.current_line_idx);
    let (left_prefix, right_prefix) = sbs_row_prefixes(
        &ctx.theme,
        indicator,
        left,
        right,
        ctx.lineno_width,
    );
    let (cell, cut) = match &diff_line.highlighted_spans {
        Some(pairs) => (
            searched_cell_spans(pairs, &diff_line.search_matches, search),
            Cut::Spans,
        ),
        None => (
            plain_cell_spans(
                diff_line.content.as_str(),
                style,
                &diff_line.search_matches,
                search,
            ),
            Cut::Chars,
        ),
    };
    let no_words: Vec<Range<usize>> = Vec::new();
    let content = content_spans_for_diff_line(&ctx.theme, diff_line, &no_words, search);
    out.push(
        Row::Columns(
            ColumnsRow {
                left_cell: copy_spans(&cell),
                right_cell: cell,
                cut,
                meta: SbsRowMeta {
                    left_content: copy_spans(&content),
                    right_content: content,
                    left_prefix,
                    right_prefix,
                    left_pad_style: style,
                    right_pad_style: style,
                },
            },
        ),
    );
}

/// One column of a change-block row, built once for both row paths: where lines
/// do not wrap `content` is cut or padded to the column, and where they do it
/// wraps, so both mark the same characters.
#[derive(Debug)]
pub struct ChangeColumn {
    pub content: Vec<Span>,
    pub pad_style: Style,
    pub side: SideSpec,
}

/// What a [`ChangeColumn`] shows.
#[verifier::ext_equal]
pub struct ColumnView {
    pub content: Seq<Run>,
    pub pad_style: Style,
    pub side: SideSpec,
}

impl View for ChangeColumn {
    type V = ColumnView;

    open spec fn view(&self) -> ColumnView {
        ColumnView {
            content: runs(self.content@),
            pad_style: self.pad_style,
            side: self.side,
        }
    }
}

/// The column of a changed line: an addition shows its new number, any other
/// line its old one.
pub open spec fn line_column(
    ctx: SideBySideContext,
    dl: DiffLine,
    words: Seq<Range<usize>>,
    row: int,
) -> ColumnView {
    let added = dl.origin == LineOrigin::Addition;
    ColumnView {
        content: content_runs(ctx.theme, dl, words, ctx.search_style(row)),
        pad_style: pad_style(ctx.theme, dl, dl.origin),
        side: SideSpec {
            lineno: ctx.lineno(
                if added {
                    dl.new_lineno
                } else {
                    dl.old_lineno
                },
                row,
            ),
            marker: Marker::Bar,
            marker_style: if added {
                ctx.theme.diff_add_style
            } else {
                ctx.theme.diff_del_style
            },
        },
    }
}

/// The column of a side that has no line.
pub open spec fn empty_column() -> ColumnView {
    ColumnView {
        content: Seq::empty(),
        pad_style: plain_style(),
        side: SideSpec { lineno: None, marker: Marker::Blank, marker_style: plain_style() },
    }
}

impl ChangeColumn {
    /// The column for `dl`, a line of a change block: a deletion fills the
    /// left column, an addition the right.
    pub fn for_line(
        ctx: &SideBySideContext,
        dl: &DiffLine,
        word_ranges: &Vec<Range<usize>>,
        row: usize,
    ) -> (column: Self)
        ensures
            column@ == line_column(*ctx, *dl, word_ranges@, row as int),
    {
        let (lineno, marker_style) = match dl.origin {
            LineOrigin::Addition => (dl.new_lineno, ctx.theme.diff_add_style),
            LineOrigin::Deletion | LineOrigin::Context => {
                (dl.old_lineno, ctx.theme.diff_del_style)
            },
        };
        ChangeColumn {
            content: content_spans_for_diff_line(
                &ctx.theme,
                dl,
                word_ranges,
                ctx.search_for(row),
            ),
            pad_style: column_pad_style(&ctx.theme, dl, dl.origin),
            side: SideSpec {
                lineno: ctx.display_lineno(lineno, row),
                marker: Marker::Bar,
                marker_style,
            },
        }
    }

    /// The column of the unpaired tail's other side: blank, no marker.
    pub fn empty() -> (column: Self)
        ensures
            column@ == empty_column(),
            column.content@.len() == 0,
    {
        ChangeColumn {
            content: Vec::new(),
            pad_style: Style::default(),
            side: SideSpec {
                lineno: None,
                marker: Marker::Blank,
                marker_style: Style::default(),
            },
        }
    }

    /// The content of the column's one row, before it is cut to the column.
    pub fn cell(&self) -> (spans: Vec<Span>)
        ensures
            runs(spans@) == self@.content,
    {
        copy_spans(&self.content)
    }
}

/// The changed words of a line pair, on both lines; none where word diff is
/// off.
pub open spec fn pair_marks(ctx: SideBySideContext, deletion: DiffLine, addition: DiffLine) -> (
    Seq<Range<usize>>,
    Seq<Range<usize>>,
) {
    if ctx.word_diff {
        word_marks(deletion.content@, addition.content@, ctx.whitespace_mode)
    } else {
        (Seq::empty(), Seq::empty())
    }
}

/// The changed words of a line pair; none where word diff is off.
pub fn line_pair_ranges(
    ctx: &SideBySideContext,
    deletion: &DiffLine,
    addition: &DiffLine,
) -> (ranges:
    WordRanges)
    ensures
        (ranges.deletion@, ranges.addition@) == pair_marks(*ctx, *deletion, *addition),
{
    if ctx.word_diff {
        word_ranges(deletion.content.as_str(), addition.content.as_str(), ctx.whitespace_mode)
    } else {
        WordRanges::default()
    }
}

/// The columns of a change-block row. Words are marked on a line pair alone.
pub open spec fn change_columns(
    ctx: SideBySideContext,
    deletion: Option<DiffLine>,
    addition: Option<DiffLine>,
    row: int,
) -> (ColumnView, ColumnView) {
    match (deletion, addition) {
        (Some(del), Some(add)) => {
            let words = pair_marks(ctx, del, add);
            (line_column(ctx, del, words.0, row), line_column(ctx, add, words.1, row))
        },
        (Some(del), None) => (line_column(ctx, del, Seq::empty(), row), empty_column()),
        (None, Some(add)) => (empty_column(), line_column(ctx, add, Seq::empty(), row)),
        (None, None) => (empty_column(), empty_column()),
    }
}

/// The row of a change block with the given lines.
pub open spec fn change_row(
    ctx: SideBySideContext,
    deletion: Option<DiffLine>,
    addition: Option<DiffLine>,
    row: int,
) -> RowView {
    let lw = ctx.lineno_width as int;
    let indicator = indicator_text(row, ctx.current_line_idx as int);
    let (left, right) = change_columns(ctx, deletion, addition, row);
    RowView::Columns {
        left_cell: left.content,
        right_cell: right.content,
        cut: Cut::Line,
        meta: MetaView {
            left_content: left.content,
            right_content: right.content,
            left_prefix: left_prefix_runs(
                ctx.theme,
                indicator,
                left.side,
                ctx.theme.dim_style,
                lw,
            ),
            right_prefix: right_prefix_runs(ctx.theme, right.side, ctx.theme.dim_style, lw),
            left_pad_style: left.pad_style,
            right_pad_style: right.pad_style,
        },
    }
}

/// The line with the given index, where there is one.
pub open spec fn line_at(lines: Seq<DiffLine>, at: Option<usize>) -> Option<DiffLine> {
    match at {
        Some(i) => Some(lines[i as int]),
        None => None,
    }
}

/// Append the row of a change block with the given lines.
pub fn push_change_row(
    lines: &Vec<DiffLine>,
    deletion: Option<usize>,
    addition: Option<usize>,
    ctx: &SideBySideContext,
    out: &mut SideBySideRows,
)
    requires
        deletion is Some ==> deletion->0 < lines@.len(),
        addition is Some ==> addition->0 < lines@.len(),
    ensures
        final(out)@ == old(out)@.with_row(
            change_row(
                *ctx,
                line_at(lines@, deletion),
                line_at(lines@, addition),
                old(out)@.len(),
            ),
        ),
{
    let row: usize = out.rows.len();
    let words = match (deletion, addition) {
        (Some(del), Some(add)) => line_pair_ranges(ctx, &lines[del], &lines[add]),
        _ => WordRanges::default(),
    };
    let left = match deletion {
        Some(del) => ChangeColumn::for_line(ctx, &lines[del], &words.deletion, row),
        None => ChangeColumn::empty(),
    };
    let right = match addition {
        Some(add) => ChangeColumn::for_line(ctx, &lines[add], &words.addition, row),
        None => ChangeColumn::empty(),
    };
    let indicator = cursor_indicator(row, ctx.current_line_idx);
    let (left_prefix, right_prefix) = sbs_row_prefixes(
        &ctx.theme,
        indicator,
        left.side,
        right.side,
        ctx.lineno_width,
    );
    assert((left@, right@) == change_columns(
        *ctx,
        line_at(lines@, deletion),
        line_at(lines@, addition),
        row as int,
    ));
    out.push(
        Row::Columns(
            ColumnsRow {
                left_cell: left.cell(),
                right_cell: right.cell(),
                cut: Cut::Line,
                meta: SbsRowMeta {
                    left_content: left.content,
                    right_content: right.content,
                    left_prefix,
                    right_prefix,
                    left_pad_style: left.pad_style,
                    right_pad_style: right.pad_style,
                },
            },
        ),
    );
}

/// Lines are marked in pairs alone: where word diff is off, or a line has no
/// partner, the columns show their lines without word marks.
pub proof fn lemma_unmarked_columns(
    ctx: SideBySideContext,
    deletion: Option<DiffLine>,
    addition: Option<DiffLine>,
    row: int,
)
    requires
        !ctx.word_diff || deletion is None || addition is None,
    ensures
        deletion is Some ==> change_columns(ctx, deletion, addition, row).0.content
            == searched_runs(
            source_runs(ctx.theme, deletion->0),
            deletion->0.search_matches@,
            ctx.search_style(row),
        ),
        addition is Some ==> change_columns(ctx, deletion, addition, row).1.content
            == searched_runs(
            source_runs(ctx.theme, addition->0),
            addition->0.search_matches@,
            ctx.search_style(row),
        ),
{
    if let Some(del) = deletion {
        lemma_unmarked_line(ctx.theme, del, ctx.search_style(row));
    }
    if let Some(add) = addition {
        lemma_unmarked_line(ctx.theme, add, ctx.search_style(row));
    }
}

/// A context line shows the same text in both columns, and a side of a change
/// block that has no line shows nothing.
pub proof fn lemma_columns_of_unchanged_sides(
    ctx: SideBySideContext,
    dl: DiffLine,
    other: Option<DiffLine>,
    row: int,
)
    ensures
        context_row(ctx, dl, row)->meta.left_content == context_row(
            ctx,
            dl,
            row,
        )->meta.right_content,
        expanded_row(ctx, dl, row)->meta.left_content == expanded_row(
            ctx,
            dl,
            row,
        )->meta.right_content,
        change_row(ctx, None, other, row)->meta.left_content.len() == 0,
        change_row(ctx, other, None, row)->meta.right_content.len() == 0,
{
}

} // verus!
