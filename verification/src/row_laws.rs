//! What the rows of lines, gaps, comments and threads show, said of the review
//! itself.

use crate::cell_laws::{
    ends_in_number, lemma_prefixes_show_numbers, lemma_search_paints_matches, starts_in,
    under_search,
};
use crate::columns::{content_runs, lemma_unmarked_line, pad_style, searched_runs};
use crate::comments::{
    comments_at, comments_shown, first_comments_shown, first_threads_shown, input_box_len,
    line_comment_shown, line_input_shown, range_or_line, threads_shown, writes_here,
};
use crate::context::{InputMode, SideBySideContext};
use crate::gap_rows::{
    end_gap_shown, expanded_rows, gap_rows_shown, gap_shown, has_end_gap, stub_rows, stubs_above,
    stubs_at_end,
};
use crate::gutter::{Marker, SideSpec};
use crate::line_rows::{change_row, context_row, expanded_row, ChangeColumn};
use crate::model::{
    ChangeBlock, Comment, DiffFile, DiffHunk, DiffLine, ExpandedLines, FileStatus, LineOrigin,
    LineRange, LineSide, RemoteCommentSide, RemoteReviewThread,
};
use crate::paint::{lemma_painted_runs_cells, Paint};
use crate::rows::{
    ColumnsRow, CommentBarAnchor, Cut, ExpandDirection, GapStub, MetaView, Row, RowView, Sheet,
    SideBySideRows,
};
use crate::style::{cells, lemma_push_run, runs, styled, Line, Run, Style};
use crate::word_diff::word_marks;
use std::ops::Range;
use vstd::prelude::*;

verus! {

/// What rows show is what they hold: the left column its left parts, the right
/// column its right ones, each with its own style, and nothing is left out.
pub proof fn lemma_rows_show_what_they_hold(columns: ColumnsRow, line: Line, all: SideBySideRows)
    ensures
        ({
            let meta = columns.meta@;
            &&& meta.left_content == runs(columns.meta.left_content@)
            &&& meta.right_content == runs(columns.meta.right_content@)
            &&& meta.left_prefix == runs(columns.meta.left_prefix@)
            &&& meta.right_prefix == runs(columns.meta.right_prefix@)
            &&& meta.left_pad_style == columns.meta.left_pad_style
            &&& meta.right_pad_style == columns.meta.right_pad_style
            &&& Row::Columns(columns)@->left_cell == runs(columns.left_cell@)
            &&& Row::Columns(columns)@->right_cell == runs(columns.right_cell@)
            &&& Row::Columns(columns)@->cut == columns.cut
            &&& Row::Columns(columns)@->meta == meta
        }),
        Row::Full(line)@ == RowView::Full(runs(line.spans@)),
        forall|stub: GapStub, remaining: usize, on_cursor: bool| #[trigger]
            (Row::Gap { stub, remaining, on_cursor })@ == (RowView::Gap {
                stub,
                remaining,
                on_cursor,
            }),
        all@.rows.len() == all.rows@.len(),
        forall|i: int| 0 <= i < all.rows@.len() ==> #[trigger] all@.rows[i] == all.rows@[i]@,
        all@.bars == all.comment_bars@,
        all@.input == all.input,
{
}

/// A changed column shows what it holds.
pub proof fn lemma_column_shows_what_it_holds(column: ChangeColumn)
    ensures
        column@.content == runs(column.content@),
        column@.pad_style == column.pad_style,
        column@.side == column.side,
{
}

/// A row is in the viewport from its first row up to the one before its end,
/// and a box is as soon as one of its rows is.
pub proof fn lemma_box_is_visible_with_one_row(ctx: SideBySideContext, top: int, rows: int)
    requires
        0 < rows,
        ctx.visible_start < ctx.visible_end,
    ensures
        ctx.visible(top) <==> ctx.visible_start <= top && top < ctx.visible_end,
        ctx.shows_box(top, rows) <==> exists|r: int|
            top <= r < top + rows && ctx.visible_start <= r && #[trigger] below(
                r,
                ctx.visible_end as int,
            ),
{
    if ctx.shows_box(top, rows) {
        let r = if top < ctx.visible_start {
            ctx.visible_start as int
        } else {
            top
        };
        assert(below(r, ctx.visible_end as int));
    }
}

/// Whether a row lies above the end of the viewport.
pub open spec fn below(row: int, end: int) -> bool {
    row < end
}

/// Search matches are painted on the rows of the search and on no others.
pub proof fn lemma_search_paints_its_rows(ctx: SideBySideContext, row: usize)
    ensures
        ctx.search_rows@.contains(row) <==> ctx.search_style(row as int) is Some,
        ctx.search_style(row as int) is Some ==> ctx.search_style(row as int)->0
            == ctx.theme.search_match_style,
{
}

/// A line shows its own number, or, where numbers are relative, how many rows
/// the cursor is away; a side without a line shows none.
pub proof fn lemma_numbers_are_own_or_relative(
    ctx: SideBySideContext,
    line: Option<u32>,
    row: int,
    away: int,
)
    requires
        0 <= away <= u32::MAX,
        row == ctx.current_line_idx + away || row + away == ctx.current_line_idx,
    ensures
        line is None ==> ctx.lineno(line, row) is None,
        line is Some && !ctx.relative_line_numbers ==> ctx.lineno(line, row) == line,
        line is Some && ctx.relative_line_numbers ==> ctx.lineno(line, row) == Some(away as u32),
{
}

/// While a comment is being written, it is one on the review, one on a file, or
/// one on lines; otherwise it is none of them.
pub proof fn lemma_one_comment_is_written(ctx: SideBySideContext, file_idx: int)
    ensures
        ctx.input_mode == InputMode::Normal ==> !ctx.writes_line_comment()
            && !ctx.writes_review_comment() && !ctx.writes_file_comment(file_idx),
        ctx.input_mode == InputMode::Comment ==> {
            &&& ctx.comment_is_review_level <==> ctx.writes_review_comment()
            &&& ctx.comment_is_file_level && file_idx == ctx.current_file_idx
                <==> ctx.writes_file_comment(file_idx)
            &&& ctx.writes_line_comment() <==> !ctx.comment_is_review_level
                && !ctx.comment_is_file_level
        },
{
}

/// The comment that is being edited is the one with its id.
pub proof fn lemma_edited_by_id(ctx: SideBySideContext, comment: Comment)
    ensures
        ctx.edits(comment) <==> ctx.editing_comment_id is Some && ctx.editing_comment_id->0@
            == comment.id@,
{
}

/// Formatted lines stand in order, one row each, and each starts with the
/// indicator of its row.
pub proof fn lemma_formatted_lines_keep_order(
    ctx: SideBySideContext,
    lines: Seq<Line>,
    top: int,
    k: int,
)
    requires
        0 <= k < lines.len(),
    ensures
        ctx.indicated_rows(lines, top).len() == lines.len(),
        ctx.indicated_rows(lines, top)[k] == indicated(ctx, lines[k], top + k),
{
    assert(ctx.indicated_rows(lines, top)[k] =~= indicated(ctx, lines[k], top + k));
}

/// A formatted line on a row, behind a triangle where the cursor is on the row
/// and behind a space elsewhere.
pub open spec fn indicated(ctx: SideBySideContext, line: Line, row: int) -> RowView {
    let mark: Run = (
        seq![
            if row == ctx.current_line_idx {
                '\u{25b6}'
            } else {
                ' '
            },
        ],
        ctx.theme.current_line_indicator_style,
    );
    RowView::Full(seq![mark] + runs(line.spans@))
}

/// Whether the rows from `top` on are the formatted lines.
pub open spec fn stand_at(
    ctx: SideBySideContext,
    lines: Seq<Line>,
    rows: Seq<RowView>,
    top: int,
) -> bool {
    &&& 0 <= top
    &&& top + lines.len() <= rows.len()
    &&& forall|k: int|
        #![trigger lines[k]]
        0 <= k < lines.len() ==> rows[top + k] == indicated(ctx, lines[k], top + k)
}

/// Whether a sheet goes on where another ends.
pub open spec fn goes_on(s: Sheet, t: Sheet) -> bool {
    &&& s.rows.len() <= t.rows.len()
    &&& forall|i: int| 0 <= i < s.rows.len() ==> #[trigger] t.rows[i] == s.rows[i]
    &&& s.bars.len() <= t.bars.len()
    &&& forall|i: int| 0 <= i < s.bars.len() ==> #[trigger] t.bars[i] == s.bars[i]
}

/// Whether a row starts with the indicator of its index and shows the numbers
/// and markers of both sides, the divider between them.
pub open spec fn shows_numbers(
    ctx: SideBySideContext,
    meta: MetaView,
    row: int,
    left: SideSpec,
    right: SideSpec,
    style: Style,
) -> bool {
    let lw = ctx.lineno_width as int;
    &&& cells(meta.left_prefix)[0] == (
        if row == ctx.current_line_idx {
            '\u{25b6}'
        } else {
            ' '
        },
        ctx.theme.current_line_indicator_style,
    )
    &&& ends_in_number(meta.left_prefix, 1, left, style, lw)
    &&& cells(meta.right_prefix)[0] == (' ', ctx.theme.dim_style)
    &&& cells(meta.right_prefix)[1] == ('\u{2502}', ctx.theme.dim_style)
    &&& cells(meta.right_prefix)[2] == (' ', ctx.theme.dim_style)
    &&& ends_in_number(meta.right_prefix, 3, right, style, lw)
}

/// Whether a cell shows a text in one style, its search matches painted over.
pub open spec fn shows_text(
    cell: Seq<Run>,
    text: Seq<char>,
    style: Style,
    matches: Seq<Range<usize>>,
    search: Option<Style>,
) -> bool {
    &&& cells(cell).len() == text.len()
    &&& forall|i: int|
        #![trigger text[i]]
        0 <= i < text.len() ==> cells(cell)[i] == (
            text[i],
            under_search(style, search, starts_in(matches, text, i)),
        )
}

proof fn lemma_shows_text(
    text: Seq<char>,
    style: Style,
    matches: Seq<Range<usize>>,
    search: Option<Style>,
)
    ensures
        shows_text(
            searched_runs(seq![(text, style)], matches, search),
            text,
            style,
            matches,
            search,
        ),
{
    let row: Seq<Run> = seq![(text, style)];
    assert(row =~= Seq::<Run>::empty().push((text, style)));
    lemma_push_run(Seq::empty(), (text, style));
    assert(cells(row) =~= styled(text, style));
    assert(Seq::new(cells(row).len(), |j: int| cells(row)[j].0) =~= text);
    let shown = searched_runs(row, matches, search);
    assert forall|i: int| #![trigger text[i]] 0 <= i < text.len() implies cells(shown)[i] == (
        text[i],
        under_search(style, search, starts_in(matches, text, i)),
    ) by {
        lemma_search_paints_matches(row, matches, search, i);
    }
    if text.len() > 0 {
        lemma_search_paints_matches(row, matches, search, 0);
    } else if let Some(over) = search {
        lemma_painted_runs_cells(row, matches, Paint::Over(over));
    }
}

/// What both columns of a context line's side look like.
pub open spec fn unchanged_side(
    ctx: SideBySideContext,
    line: Option<u32>,
    row: int,
    style: Style,
) -> SideSpec {
    SideSpec { lineno: ctx.lineno(line, row), marker: Marker::Blank, marker_style: style }
}

/// An expanded line stands in both columns, its old number left and its new one
/// right, in the theme's style for expanded lines.
pub open spec fn shows_expanded_line(
    ctx: SideBySideContext,
    dl: DiffLine,
    at: int,
    row: RowView,
) -> bool {
    let style = ctx.theme.expanded_context_style;
    let search = ctx.search_style(at);
    let matches = dl.search_matches@;
    &&& row is Columns
    &&& shows_text(row->left_cell, dl.content@, style, matches, search)
    &&& shows_text(row->right_cell, dl.content@, style, matches, search)
    &&& row->meta.left_content == row->left_cell
    &&& row->meta.right_content == row->right_cell
    &&& row->meta.left_pad_style == style && row->meta.right_pad_style == style
    &&& row->cut == Cut::Chars
    &&& shows_numbers(
        ctx,
        row->meta,
        at,
        unchanged_side(ctx, dl.old_lineno, at, style),
        unchanged_side(ctx, dl.new_lineno, at, style),
        style,
    )
}

/// An expanded line's row shows the line.
pub proof fn lemma_expanded_row_shows_its_line(ctx: SideBySideContext, dl: DiffLine, at: int)
    ensures
        shows_expanded_line(ctx, dl, at, expanded_row(ctx, dl, at)),
{
    let style = ctx.theme.expanded_context_style;
    let lw = ctx.lineno_width as int;
    let cursor = ctx.current_line_idx as int;
    lemma_shows_text(dl.content@, style, dl.search_matches@, ctx.search_style(at));
    let left = unchanged_side(ctx, dl.old_lineno, at, style);
    let right = unchanged_side(ctx, dl.new_lineno, at, style);
    lemma_prefixes_show_numbers(ctx.theme, at, cursor, left, style, lw);
    lemma_prefixes_show_numbers(ctx.theme, at, cursor, right, style, lw);
}

/// A context line stands in both columns, its old number left and its new one
/// right, in the theme's style for context or in its syntax colors, without
/// word marks.
pub proof fn lemma_context_row_shows_its_line(ctx: SideBySideContext, dl: DiffLine, at: int)
    ensures
        ({
            let row = context_row(ctx, dl, at);
            let style = ctx.theme.diff_context_style;
            let search = ctx.search_style(at);
            &&& row is Columns
            &&& row->left_cell == row->right_cell
            &&& dl.highlighted_spans is None ==> row->cut == Cut::Chars && shows_text(
                row->left_cell,
                dl.content@,
                style,
                dl.search_matches@,
                search,
            )
            &&& dl.highlighted_spans is Some ==> row->cut == Cut::Spans && row->left_cell
                == row->meta.left_content
            &&& row->meta.left_content == content_runs(ctx.theme, dl, Seq::empty(), search)
            &&& row->meta.right_content == row->meta.left_content
            &&& row->meta.left_pad_style == style && row->meta.right_pad_style == style
            &&& shows_numbers(
                ctx,
                row->meta,
                at,
                unchanged_side(ctx, dl.old_lineno, at, style),
                unchanged_side(ctx, dl.new_lineno, at, style),
                ctx.theme.dim_style,
            )
        }),
{
    let style = ctx.theme.diff_context_style;
    let lw = ctx.lineno_width as int;
    let cursor = ctx.current_line_idx as int;
    lemma_shows_text(dl.content@, style, dl.search_matches@, ctx.search_style(at));
    lemma_unmarked_line(ctx.theme, dl, ctx.search_style(at));
    let left = unchanged_side(ctx, dl.old_lineno, at, style);
    let right = unchanged_side(ctx, dl.new_lineno, at, style);
    lemma_prefixes_show_numbers(ctx.theme, at, cursor, left, ctx.theme.dim_style, lw);
    lemma_prefixes_show_numbers(ctx.theme, at, cursor, right, ctx.theme.dim_style, lw);
}

/// The number and marker of a changed line: an addition has its new number and
/// a bar in the style of additions, any other line its old number and a bar in
/// the style of deletions; a side without a line has neither.
pub open spec fn changed_side(ctx: SideBySideContext, dl: Option<DiffLine>, at: int) -> SideSpec {
    match dl {
        Some(dl) => if dl.origin == LineOrigin::Addition {
            SideSpec {
                lineno: ctx.lineno(dl.new_lineno, at),
                marker: Marker::Bar,
                marker_style: ctx.theme.diff_add_style,
            }
        } else {
            SideSpec {
                lineno: ctx.lineno(dl.old_lineno, at),
                marker: Marker::Bar,
                marker_style: ctx.theme.diff_del_style,
            }
        },
        None => SideSpec { lineno: None, marker: Marker::Blank, marker_style: nothing() },
    }
}

/// The style that paints nothing.
pub open spec fn nothing() -> Style {
    Style { fg: None, bg: None, add_modifier: 0, sub_modifier: 0 }
}

/// Whether a column shows a changed line with the given words marked, or
/// nothing where there is no line.
pub open spec fn shows_changed_line(
    ctx: SideBySideContext,
    dl: Option<DiffLine>,
    words: Seq<Range<usize>>,
    at: int,
    cell: Seq<Run>,
    content: Seq<Run>,
    pad: Style,
) -> bool {
    &&& cell == content
    &&& match dl {
        Some(dl) => content == content_runs(ctx.theme, dl, words, ctx.search_style(at)) && pad
            == pad_style(ctx.theme, dl, dl.origin),
        None => cells(content).len() == 0 && pad == nothing(),
    }
}

/// A row of a change block shows its deletion left and its addition right, each
/// with its number and marker. Words are marked where word diff is on and both
/// lines are there, as word diff says of the two contents.
pub proof fn lemma_change_row_shows_its_lines(
    ctx: SideBySideContext,
    deletion: Option<DiffLine>,
    addition: Option<DiffLine>,
    at: int,
)
    ensures
        ({
            let row = change_row(ctx, deletion, addition, at);
            let words = if ctx.word_diff && deletion is Some && addition is Some {
                word_marks(deletion->0.content@, addition->0.content@, ctx.whitespace_mode)
            } else {
                (Seq::empty(), Seq::empty())
            };
            &&& row is Columns
            &&& row->cut == Cut::Line
            &&& shows_changed_line(
                ctx,
                deletion,
                words.0,
                at,
                row->left_cell,
                row->meta.left_content,
                row->meta.left_pad_style,
            )
            &&& shows_changed_line(
                ctx,
                addition,
                words.1,
                at,
                row->right_cell,
                row->meta.right_content,
                row->meta.right_pad_style,
            )
            &&& shows_numbers(
                ctx,
                row->meta,
                at,
                changed_side(ctx, deletion, at),
                changed_side(ctx, addition, at),
                ctx.theme.dim_style,
            )
        }),
{
    let lw = ctx.lineno_width as int;
    let cursor = ctx.current_line_idx as int;
    let left = changed_side(ctx, deletion, at);
    let right = changed_side(ctx, addition, at);
    lemma_prefixes_show_numbers(ctx.theme, at, cursor, left, ctx.theme.dim_style, lw);
    lemma_prefixes_show_numbers(ctx.theme, at, cursor, right, ctx.theme.dim_style, lw);
}

/// Lines of a change block are paired by position: row by row, the deletion and
/// the addition with the row's index, until both have run out.
pub proof fn lemma_lines_pair_by_position(block: ChangeBlock, i: int)
    requires
        0 <= i,
    ensures
        block.paired().len() >= block.deletions@.len(),
        block.paired().len() >= block.additions@.len(),
        block.paired().len() == block.deletions@.len() || block.paired().len()
            == block.additions@.len(),
        block.row_count() == block.paired().len(),
        i < block.deletions@.len() ==> block.paired()[i].0 == Some(block.deletions@[i]),
        block.deletions@.len() <= i < block.paired().len() ==> block.paired()[i].0 is None,
        i < block.additions@.len() ==> block.paired()[i].1 == Some(block.additions@[i]),
        block.additions@.len() <= i < block.paired().len() ==> block.paired()[i].1 is None,
{
}

/// Whether the rows from `top` on are the expanded lines, in the file's order;
/// where `cull` says so, those outside the viewport are blank.
pub open spec fn expanded_at(
    ctx: SideBySideContext,
    lines: Seq<DiffLine>,
    cull: bool,
    rows: Seq<RowView>,
    top: int,
) -> bool {
    &&& 0 <= top
    &&& top + lines.len() <= rows.len()
    &&& forall|k: int|
        #![trigger lines[k]]
        0 <= k < lines.len() ==> if cull && !(ctx.visible_start <= top + k && top + k
            < ctx.visible_end) {
            rows[top + k] == RowView::Full(Seq::empty())
        } else {
            shows_expanded_line(ctx, lines[k], top + k, rows[top + k])
        }
}

/// Expanded lines keep the file's order: the row with index `k` of a list is
/// that of its line with index `k`.
pub proof fn lemma_expanded_lines_keep_order(
    ctx: SideBySideContext,
    lines: Seq<DiffLine>,
    cull: bool,
    before: Seq<RowView>,
    after: Seq<RowView>,
)
    ensures
        expanded_rows(ctx, lines, cull, before.len() as int).len() == lines.len(),
        expanded_at(
            ctx,
            lines,
            cull,
            before + expanded_rows(ctx, lines, cull, before.len() as int) + after,
            before.len() as int,
        ),
{
    let top = before.len() as int;
    let all = before + expanded_rows(ctx, lines, cull, top) + after;
    assert forall|k: int| #![trigger lines[k]] 0 <= k < lines.len() implies if cull && !(
    ctx.visible_start <= top + k && top + k < ctx.visible_end) {
        all[top + k] == RowView::Full(Seq::empty())
    } else {
        shows_expanded_line(ctx, lines[k], top + k, all[top + k])
    } by {
        lemma_expanded_row_shows_its_line(ctx, lines[k], top + k);
        assert(all[top + k] == expanded_rows(ctx, lines, cull, top)[k]);
    }
}

/// Whether the rows from `top` on are the stubs of a gap with `hidden` lines.
pub open spec fn stubs_at(
    ctx: SideBySideContext,
    stubs: Seq<GapStub>,
    hidden: int,
    rows: Seq<RowView>,
    top: int,
) -> bool {
    &&& 0 <= top
    &&& top + stubs.len() <= rows.len()
    &&& forall|k: int|
        #![trigger stubs[k]]
        0 <= k < stubs.len() ==> rows[top + k] == (RowView::Gap {
            stub: stubs[k],
            remaining: hidden as usize,
            on_cursor: top + k == ctx.current_line_idx,
        })
}

/// Whether a sheet holds a gap of `gap` lines after the rows of another: the
/// lines expanded from above, stubs for those still hidden, the lines expanded
/// from below, and nothing else.
pub open spec fn holds_gap(
    ctx: SideBySideContext,
    expanded: ExpandedLines,
    gap: int,
    stubs: Seq<GapStub>,
    cull: bool,
    s: Sheet,
    t: Sheet,
) -> bool {
    let shown = expanded.top@.len() + expanded.bottom@.len();
    let hidden = if shown < gap {
        gap - shown
    } else {
        0
    };
    let middle = s.len() + expanded.top@.len();
    &&& goes_on(s, t)
    &&& t.bars == s.bars && t.input == s.input
    &&& t.len() == s.len() + shown + stubs.len()
    &&& hidden == 0 <==> stubs.len() == 0
    &&& expanded_at(ctx, expanded.top@, cull, t.rows, s.len())
    &&& stubs_at(ctx, stubs, hidden, t.rows, middle)
    &&& expanded_at(ctx, expanded.bottom@, cull, t.rows, middle + stubs.len())
}

proof fn lemma_gap_rows(
    ctx: SideBySideContext,
    expanded: ExpandedLines,
    gap: int,
    stubs: Seq<GapStub>,
    remaining: usize,
    cull: bool,
    s: Sheet,
)
    requires
        remaining == (if expanded.top@.len() + expanded.bottom@.len() < gap {
            gap - (expanded.top@.len() + expanded.bottom@.len())
        } else {
            0
        }),
        remaining == 0 <==> stubs.len() == 0,
    ensures
        holds_gap(
            ctx,
            expanded,
            gap,
            stubs,
            cull,
            s,
            gap_rows_shown(ctx, expanded, stubs, remaining, cull, s),
        ),
{
    let t = s.with_rows(expanded_rows(ctx, expanded.top@, cull, s.len()));
    let more = stub_rows(ctx, stubs, remaining, t.len());
    let u = t.with_rows(more);
    let last = expanded_rows(ctx, expanded.bottom@, cull, u.len());
    let all = u.with_rows(last);
    let none = Seq::<RowView>::empty();
    lemma_expanded_lines_keep_order(ctx, expanded.top@, cull, s.rows, more + last);
    assert(all.rows =~= s.rows + expanded_rows(ctx, expanded.top@, cull, s.len()) + (more + last));
    lemma_expanded_lines_keep_order(ctx, expanded.bottom@, cull, u.rows, none);
    assert(all.rows =~= u.rows + last + none);
    assert forall|k: int| #![trigger stubs[k]] 0 <= k < stubs.len() implies all.rows[t.len() + k]
        == (RowView::Gap {
        stub: stubs[k],
        remaining,
        on_cursor: t.len() + k == ctx.current_line_idx,
    }) by {
        assert(all.rows[t.len() + k] == more[k]);
    }
}

/// Above a hunk stand the hidden lines before it that were asked for, in the
/// file's order, and stubs for the rest; nothing where there are none or they
/// have no rows of their own.
pub proof fn lemma_gap_above_a_hunk(
    ctx: SideBySideContext,
    hunk: DiffHunk,
    is_first: bool,
    s: Sheet,
)
    ensures
        ({
            let t = gap_shown(ctx, hunk, is_first, s);
            let gap = hunk.gap_before as int;
            let shown = hunk.expanded.top@.len() + hunk.expanded.bottom@.len();
            &&& hunk.gap_before == 0 || !hunk.shows_gap ==> t == s
            &&& hunk.gap_before > 0 && hunk.shows_gap ==> holds_gap(
                ctx,
                hunk.expanded,
                gap,
                stubs_above(gap - shown, is_first, ctx.gap_expand_batch as int),
                true,
                s,
                t,
            )
        }),
{
    let gap = hunk.gap_before as int;
    let shown = hunk.expanded.top@.len() + hunk.expanded.bottom@.len();
    let remaining = if shown < gap {
        gap - shown
    } else {
        0
    };
    let stubs = stubs_above(gap - shown, is_first, ctx.gap_expand_batch as int);
    lemma_gap_rows(ctx, hunk.expanded, gap, stubs, remaining as usize, true, s);
}

/// After the last hunk of a file that still exists stand the lines up to its
/// end that were asked for, in the file's order, and stubs for the rest;
/// nothing where such lines are not offered or not counted, or there are none.
pub proof fn lemma_gap_at_the_end(ctx: SideBySideContext, file: DiffFile, s: Sheet)
    requires
        file.wf(ctx.shows_end_gaps),
    ensures
        ({
            let t = end_gap_shown(ctx, file, s);
            let last = file.hunks@.last();
            let gap = file.line_count->0 - (last.new_start + last.new_count) + 1;
            let shown = file.expanded_end.top@.len() + file.expanded_end.bottom@.len();
            let offered = file.status != FileStatus::Deleted && ctx.shows_end_gaps
                && file.hunks@.len() > 0 && file.line_count is Some && gap > 0;
            &&& !offered ==> t == s
            &&& offered ==> holds_gap(
                ctx,
                file.expanded_end,
                gap,
                stubs_at_end(gap - shown, ctx.gap_expand_batch as int),
                false,
                s,
                t,
            )
        }),
{
    let last = file.hunks@.last();
    let gap = file.line_count->0 - (last.new_start + last.new_count) + 1;
    let shown = file.expanded_end.top@.len() + file.expanded_end.bottom@.len();
    let remaining = if shown < gap {
        gap - shown
    } else {
        0
    };
    let stubs = stubs_at_end(gap - shown, ctx.gap_expand_batch as int);
    if has_end_gap(ctx, file) {
        lemma_gap_rows(ctx, file.expanded_end, gap, stubs, remaining as usize, false, s);
    }
}

/// Hidden lines can be asked for next to lines that are shown: above the first
/// hunk upwards alone, after the last one downwards alone, and between two
/// hunks from both sides, at once where one batch shows them all. A count of
/// them stands beside the offers where one batch does not.
pub proof fn lemma_stubs_offer_hidden_lines(remaining: int, is_first: bool, batch: int)
    requires
        0 < remaining,
    ensures
        ({
            let above = stubs_above(remaining, is_first, batch);
            let end = stubs_at_end(remaining, batch);
            let up = GapStub::Expander(ExpandDirection::Up);
            let down = GapStub::Expander(ExpandDirection::Down);
            let both = GapStub::Expander(ExpandDirection::Both);
            &&& above.len() == (if is_first && remaining <= batch || !is_first && remaining
                < batch {
                1int
            } else if is_first {
                2
            } else {
                3
            })
            &&& is_first ==> above.last() == up
            &&& is_first && above.len() == 2 ==> above[0] == GapStub::Hidden
            &&& !is_first && above.len() == 1 ==> above[0] == both
            &&& !is_first && above.len() == 3 ==> above[0] == down && above[1] == GapStub::Hidden
                && above[2] == up
            &&& end.len() == (if remaining <= batch {
                1int
            } else {
                2
            })
            &&& end[0] == down
            &&& end.len() == 2 ==> end[1] == GapStub::Hidden
        }),
{
}

/// Whether a thread hangs at a line of a file: it is shown, its path and line
/// are these, and it is on the right where the line is a new one and on the left
/// where it is an old one.
pub open spec fn hangs_at(
    thread: RemoteReviewThread,
    path: Seq<char>,
    line: u32,
    side: LineSide,
) -> bool {
    &&& thread.is_shown && thread.path@ == path && thread.line == Some(line)
    &&& side == LineSide::New ==> thread.side == RemoteCommentSide::Right
    &&& side == LineSide::Old ==> thread.side == RemoteCommentSide::Left
}

/// The threads among the first `n` that hang at a line, counted.
pub open spec fn threads_before(
    threads: Seq<RemoteReviewThread>,
    path: Seq<char>,
    line: u32,
    side: LineSide,
    n: int,
) -> int
    decreases n,
{
    if n <= 0 {
        0
    } else {
        threads_before(threads, path, line, side, n - 1) + if hangs_at(
            threads[n - 1],
            path,
            line,
            side,
        ) {
            1int
        } else {
            0
        }
    }
}

/// The rows of the threads among the first `n` that hang at a line.
pub open spec fn thread_rows_before(
    threads: Seq<RemoteReviewThread>,
    path: Seq<char>,
    line: u32,
    side: LineSide,
    n: int,
) -> int
    decreases n,
{
    if n <= 0 {
        0
    } else {
        thread_rows_before(threads, path, line, side, n - 1) + if hangs_at(
            threads[n - 1],
            path,
            line,
            side,
        ) {
            threads[n - 1].lines@.len() as int
        } else {
            0
        }
    }
}

proof fn lemma_threads_hang(
    ctx: SideBySideContext,
    path: Seq<char>,
    line: u32,
    side: LineSide,
    n: int,
    s: Sheet,
)
    requires
        0 <= n <= ctx.remote_threads@.len(),
    ensures
        ({
            let threads = ctx.remote_threads@;
            let t = first_threads_shown(ctx, path, line, side, n, s);
            &&& goes_on(s, t)
            &&& t.input == s.input
            &&& t.len() == s.len() + thread_rows_before(threads, path, line, side, n)
            &&& t.bars.len() == s.bars.len() + threads_before(threads, path, line, side, n)
        }),
    decreases n,
{
    if n > 0 {
        lemma_threads_hang(ctx, path, line, side, n - 1, s);
    }
}

proof fn lemma_thread_hangs(
    ctx: SideBySideContext,
    path: Seq<char>,
    line: u32,
    side: LineSide,
    n: int,
    i: int,
    s: Sheet,
)
    requires
        0 <= i < n <= ctx.remote_threads@.len(),
        hangs_at(ctx.remote_threads@[i], path, line, side),
    ensures
        ({
            let threads = ctx.remote_threads@;
            let t = first_threads_shown(ctx, path, line, side, n, s);
            let top = s.len() + thread_rows_before(threads, path, line, side, i);
            let bar = s.bars.len() + threads_before(threads, path, line, side, i);
            &&& stand_at(ctx, threads[i].lines@, t.rows, top)
            &&& 0 <= bar < t.bars.len()
            &&& t.bars[bar] == (CommentBarAnchor {
                row: top as usize,
                line_range: LineRange { start: line, end: line },
            })
        }),
    decreases n,
{
    let threads = ctx.remote_threads@;
    let t = first_threads_shown(ctx, path, line, side, n, s);
    let before = first_threads_shown(ctx, path, line, side, n - 1, s);
    lemma_threads_hang(ctx, path, line, side, n, s);
    lemma_threads_hang(ctx, path, line, side, n - 1, s);
    lemma_threads_hang(ctx, path, line, side, i, s);
    lemma_counts_are_not_negative(threads, path, line, side, i);
    let top = s.len() + thread_rows_before(threads, path, line, side, i);
    let lines = threads[i].lines@;
    if i < n - 1 {
        lemma_thread_hangs(ctx, path, line, side, n - 1, i, s);
        assert forall|k: int| #![trigger lines[k]] 0 <= k < lines.len() implies t.rows[top + k]
            == indicated(ctx, lines[k], top + k) by {
            assert(t.rows[top + k] == before.rows[top + k]);
        }
    } else {
        assert forall|k: int| #![trigger lines[k]] 0 <= k < lines.len() implies t.rows[top + k]
            == indicated(ctx, lines[k], top + k) by {
            lemma_formatted_lines_keep_order(ctx, lines, top, k);
            assert(t.rows[top + k] == ctx.indicated_rows(lines, top)[k]);
        }
    }
}

/// Counts of threads and of their rows are not negative.
pub proof fn lemma_counts_are_not_negative(
    threads: Seq<RemoteReviewThread>,
    path: Seq<char>,
    line: u32,
    side: LineSide,
    n: int,
)
    ensures
        0 <= threads_before(threads, path, line, side, n),
        0 <= thread_rows_before(threads, path, line, side, n),
    decreases n,
{
    if n > 0 {
        lemma_counts_are_not_negative(threads, path, line, side, n - 1);
    }
}

/// Below a line stand the threads that hang at it, in order and each with all
/// its lines, and each has one bar, at its first row. No other thread adds a
/// row or a bar, and none does where remote comments are hidden.
pub proof fn lemma_threads_hang_below_their_line(
    ctx: SideBySideContext,
    path: Seq<char>,
    line: u32,
    side: LineSide,
    s: Sheet,
)
    ensures
        ({
            let threads = ctx.remote_threads@;
            let n = threads.len() as int;
            let t = threads_shown(ctx, path, line, side, s);
            &&& ctx.hides_remote_comments ==> t == s
            &&& !ctx.hides_remote_comments ==> {
                &&& goes_on(s, t)
                &&& t.input == s.input
                &&& t.len() == s.len() + thread_rows_before(threads, path, line, side, n)
                &&& t.bars.len() == s.bars.len() + threads_before(threads, path, line, side, n)
                &&& forall|i: int|
                    0 <= i < n && hangs_at(#[trigger] threads[i], path, line, side) ==> ({
                        let top = s.len() + thread_rows_before(threads, path, line, side, i);
                        &&& stand_at(ctx, threads[i].lines@, t.rows, top)
                        &&& t.bars[s.bars.len() + threads_before(threads, path, line, side, i)]
                            == (CommentBarAnchor {
                            row: top as usize,
                            line_range: LineRange { start: line, end: line },
                        })
                    })
            }
        }),
{
    let threads = ctx.remote_threads@;
    let n = threads.len() as int;
    lemma_threads_hang(ctx, path, line, side, n, s);
    assert forall|i: int| 0 <= i < n && hangs_at(#[trigger] threads[i], path, line, side) implies {
        let t = first_threads_shown(ctx, path, line, side, n, s);
        let top = s.len() + thread_rows_before(threads, path, line, side, i);
        &&& stand_at(ctx, threads[i].lines@, t.rows, top)
        &&& t.bars[s.bars.len() + threads_before(threads, path, line, side, i)] == (
        CommentBarAnchor {
            row: top as usize,
            line_range: LineRange { start: line, end: line },
        })
    } by {
        lemma_thread_hangs(ctx, path, line, side, n, i, s);
    }
}

/// Whether a sheet holds the input box after the rows of another, standing for
/// `len` rows in place of `replaced`.
pub open spec fn holds_input(
    ctx: SideBySideContext,
    len: int,
    replaced: usize,
    s: Sheet,
    t: Sheet,
) -> bool {
    let lines = ctx.comment_input.lines@;
    &&& t.len() == s.len() + lines.len()
    &&& goes_on(s, t)
    &&& stand_at(ctx, lines, t.rows, s.len())
    &&& t.input is Some
    &&& t.input->0.annotation_len == len as usize
    &&& t.input->0.annotations_replaced == replaced
    &&& t.input->0.box_start == s.len() as usize
    &&& t.input->0.cursor_line == (s.len() + ctx.comment_input.line_offset) as usize
    &&& t.input->0.cursor_column == (1 + ctx.comment_input.column) as u16
    &&& t.input->0.box_end == (if lines.len() == 0 {
        s.len() as usize
    } else {
        (t.len() - 1) as usize
    })
}

/// The input box stands after the rows before it, line by line, and its record
/// says where.
pub proof fn lemma_input_box_is_recorded_where_it_stands(
    ctx: SideBySideContext,
    len: int,
    replaced: usize,
    s: Sheet,
)
    ensures
        holds_input(ctx, len, replaced, s, ctx.input_shown(s, len, replaced)),
        ctx.input_shown(s, len, replaced).bars == s.bars,
{
    let t = ctx.input_shown(s, len, replaced);
    let lines = ctx.comment_input.lines@;
    assert forall|k: int| #![trigger lines[k]] 0 <= k < lines.len() implies t.rows[s.len() + k]
        == indicated(ctx, lines[k], s.len() + k) by {
        lemma_formatted_lines_keep_order(ctx, lines, s.len(), k);
        assert(t.rows[s.len() + k] == ctx.indicated_rows(lines, s.len())[k]);
    }
}

/// Whether a sheet holds the box of a comment after the rows of another: its
/// lines where the box reaches into the viewport, and otherwise as many rows of
/// nothing as the box has.
pub open spec fn holds_box(ctx: SideBySideContext, comment: Comment, s: Sheet, t: Sheet) -> bool {
    &&& goes_on(s, t)
    &&& t.input == s.input
    &&& if s.len() < ctx.visible_end && s.len() + comment.rows > ctx.visible_start {
        &&& t.len() == s.len() + comment.lines@.len()
        &&& stand_at(ctx, comment.lines@, t.rows, s.len())
    } else {
        &&& t.len() == s.len() + comment.rows
        &&& forall|i: int|
            s.len() <= i < t.len() ==> #[trigger] t.rows[i] == RowView::Full(Seq::empty())
    }
}

/// A comment's box stands after the rows before it.
pub proof fn lemma_box_stands_or_keeps_its_place(ctx: SideBySideContext, comment: Comment, s: Sheet)
    ensures
        holds_box(ctx, comment, s, ctx.box_shown(s, comment)),
        ctx.box_shown(s, comment).bars == s.bars,
{
    let t = ctx.box_shown(s, comment);
    let lines = comment.lines@;
    if ctx.shows_box(s.len(), comment.rows as int) {
        assert forall|k: int| #![trigger lines[k]] 0 <= k < lines.len() implies t.rows[s.len() + k]
            == indicated(ctx, lines[k], s.len() + k) by {
            lemma_formatted_lines_keep_order(ctx, lines, s.len(), k);
            assert(t.rows[s.len() + k] == ctx.indicated_rows(lines, s.len())[k]);
        }
    }
}

/// Whether a comment on lines is being written at a line and side of a file.
pub open spec fn written_at(
    ctx: SideBySideContext,
    line: u32,
    side: LineSide,
    file_idx: int,
) -> bool {
    &&& ctx.input_mode == InputMode::Comment
    &&& !ctx.comment_is_file_level && !ctx.comment_is_review_level
    &&& file_idx == ctx.current_file_idx
    &&& match ctx.comment_line {
        Some((at, on)) => at == line && on == side,
        None => false,
    }
}

/// Whether a sheet has one bar more than another, at the given row beside the
/// given lines, or beside the line where no lines are given.
pub open spec fn adds_bar(
    s: Sheet,
    t: Sheet,
    row: int,
    range: Option<LineRange>,
    line: u32,
) -> bool {
    t.bars == s.bars.push(
        CommentBarAnchor {
            row: row as usize,
            line_range: match range {
                Some(own) => own,
                None => LineRange { start: line, end: line },
            },
        },
    )
}

/// A comment adds nothing below a line unless it passes the filter and belongs
/// to the side; one without a side belongs to the new one. Where it does, its
/// box stands there with one bar at its first row, or, where it is being edited
/// there, the input box does.
pub proof fn lemma_comment_stands_below_its_line(
    ctx: SideBySideContext,
    comment: Comment,
    line: u32,
    side: LineSide,
    file_idx: int,
    s: Sheet,
)
    ensures
        ({
            let t = line_comment_shown(ctx, comment, line, side, file_idx, s);
            let lines = ctx.comment_input.lines@.len();
            let own = comment.side is Some && comment.side->0 == side || comment.side is None
                && side == LineSide::New;
            let edited = written_at(ctx, line, side, file_idx) && ctx.editing_comment_id is Some
                && ctx.editing_comment_id->0@ == comment.id@;
            &&& !own || !comment.is_visible ==> t == s
            &&& own && comment.is_visible && edited ==> {
                &&& holds_input(
                    ctx,
                    if lines == 0 {
                        1
                    } else {
                        lines as int
                    },
                    comment.rows,
                    s,
                    t,
                )
                &&& adds_bar(s, t, s.len(), ctx.comment_line_range, line)
            }
            &&& own && comment.is_visible && !edited ==> {
                &&& holds_box(ctx, comment, s, t)
                &&& adds_bar(s, t, s.len(), comment.line_range, line)
            }
        }),
{
    lemma_box_stands_or_keeps_its_place(ctx, comment, s);
    lemma_input_box_is_recorded_where_it_stands(ctx, input_box_len(ctx), comment.rows, s);
    let boxed = ctx.box_shown(s, comment);
    let barred = boxed.with_bar(s.len(), range_or_line(comment.line_range, line));
    assert(barred.rows == boxed.rows);
    let input = ctx.input_shown(s, input_box_len(ctx), comment.rows);
    let input_barred = input.with_bar(s.len(), range_or_line(ctx.comment_line_range, line));
    assert(input_barred.rows == input.rows);
    assert(writes_here(ctx, line, side, file_idx) == written_at(ctx, line, side, file_idx)) by {
        if let Some(at) = ctx.comment_line {
            assert(at == (at.0, at.1));
        }
    }
}

/// Below a line stand the comments filed under it, in order, each as it stands
/// by itself; and after them the input box of a new comment that is being
/// written there, with its bar.
pub proof fn lemma_comments_stand_in_order(
    ctx: SideBySideContext,
    line_comments: Map<u32, Vec<Comment>>,
    line: u32,
    side: LineSide,
    file_idx: int,
    s: Sheet,
)
    ensures
        ({
            let filed = if line_comments.contains_key(line) {
                line_comments[line]@
            } else {
                Seq::empty()
            };
            let after = |n: int| first_comments_shown(ctx, filed, line, side, file_idx, n, s);
            let t = comments_shown(ctx, line_comments, line, side, file_idx, s);
            let lines = ctx.comment_input.lines@.len();
            &&& after(0) == s
            &&& forall|n: int|
                0 <= n < filed.len() ==> after(n + 1) == line_comment_shown(
                    ctx,
                    #[trigger] filed[n],
                    line,
                    side,
                    file_idx,
                    after(n),
                )
            &&& written_at(ctx, line, side, file_idx) && ctx.editing_comment_id is None ==> {
                let before = after(filed.len() as int);
                &&& holds_input(
                    ctx,
                    if lines == 0 {
                        1
                    } else {
                        lines as int
                    },
                    0,
                    before,
                    t,
                )
                &&& adds_bar(before, t, before.len(), ctx.comment_line_range, line)
            }
            &&& !(written_at(ctx, line, side, file_idx) && ctx.editing_comment_id is None) ==> t
                == after(filed.len() as int)
        }),
{
    let filed = comments_at(line_comments, line);
    let before = first_comments_shown(
        ctx,
        filed,
        line,
        side,
        file_idx,
        filed.len() as int,
        s,
    );
    lemma_input_box_is_recorded_where_it_stands(ctx, input_box_len(ctx), 0, before);
    let input = ctx.input_shown(before, input_box_len(ctx), 0);
    let barred = line_input_shown(ctx, line, 0, before);
    assert(barred.rows == input.rows);
    assert(writes_here(ctx, line, side, file_idx) == written_at(ctx, line, side, file_idx)) by {
        if let Some(at) = ctx.comment_line {
            assert(at == (at.0, at.1));
        }
    }
}

} // verus!
