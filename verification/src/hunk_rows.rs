//! The lines of a hunk in side-by-side rows, with what is said about them.

use crate::comments::{
    add_comments_to_line, add_remote_threads_to_line, comments_shown, threads_shown,
};
use crate::context::SideBySideContext;
use crate::gutter::blanks;
use crate::line_rows::{change_row, context_row, line_at, push_change_row, push_context_row};
use crate::model::{
    BlockRow, ChangeBlock, DiffFile, DiffHunk, DiffLine, HunkSegment, LineSide,
};
use crate::rows::{blank_row, RowView, Sheet, SideBySideRows};
use crate::style::{push_text, runs};
use vstd::prelude::*;

verus! {

/// What is said about one side of a row: the comments of the review, then the
/// remote threads. A side without a line number has none.
pub open spec fn notes_shown(
    ctx: SideBySideContext,
    file: DiffFile,
    file_idx: int,
    lineno: Option<u32>,
    side: LineSide,
    s: Sheet,
) -> Sheet {
    match lineno {
        Some(line) => threads_shown(
            ctx,
            file.path@,
            line,
            side,
            comments_shown(ctx, file.line_comments@, line, side, file_idx, s),
        ),
        None => s,
    }
}

/// Append what is said about one side of a row.
fn add_notes_to_line(
    lineno: Option<u32>,
    side: LineSide,
    file: &DiffFile,
    ctx: &SideBySideContext,
    file_idx: usize,
    out: &mut SideBySideRows,
)
    requires
        ctx.wf(),
    ensures
        final(out)@ == notes_shown(*ctx, *file, file_idx as int, lineno, side, old(out)@),
{
    if let Some(line) = lineno {
        add_comments_to_line(line, &file.line_comments, side, ctx, file_idx, out);
        add_remote_threads_to_line(line, side, ctx, &file.path, out);
    }
}

/// The row itself in the viewport, a blank one outside.
pub open spec fn culled(ctx: SideBySideContext, at: int, row: RowView) -> RowView {
    if ctx.visible(at) {
        row
    } else {
        blank_row()
    }
}

/// The sheet with a context line and what is said about it.
pub open spec fn context_shown(
    ctx: SideBySideContext,
    file: DiffFile,
    file_idx: int,
    dl: DiffLine,
    s: Sheet,
) -> Sheet {
    notes_shown(
        ctx,
        file,
        file_idx,
        dl.new_lineno,
        LineSide::New,
        s.with_row(culled(ctx, s.len(), context_row(ctx, dl, s.len()))),
    )
}

/// Render a context line (appears on both sides).
pub fn render_context_line_side_by_side(
    diff_line: &DiffLine,
    file: &DiffFile,
    ctx: &SideBySideContext,
    file_idx: usize,
    out: &mut SideBySideRows,
)
    requires
        ctx.wf(),
    ensures
        final(out)@ == context_shown(*ctx, *file, file_idx as int, *diff_line, old(out)@),
{
    if ctx.is_visible(out.rows.len()) {
        push_context_row(diff_line, ctx, out);
    } else {
        out.push_blank();
    }
    add_notes_to_line(diff_line.new_lineno, LineSide::New, file, ctx, file_idx, out);
}

/// The row of a commit-message line: the indicator, a two-space indent, and the
/// text as it is, over the full width.
pub open spec fn message_row(ctx: SideBySideContext, dl: DiffLine, row: int) -> RowView {
    let style = ctx.theme.diff_context_style;
    RowView::Full(ctx.indicator(row) + seq![(blanks(2), style), (dl.content@, style)])
}

/// The sheet with a commit-message line and what is said about it.
pub open spec fn message_shown(
    ctx: SideBySideContext,
    file: DiffFile,
    file_idx: int,
    dl: DiffLine,
    s: Sheet,
) -> Sheet {
    notes_shown(
        ctx,
        file,
        file_idx,
        dl.new_lineno,
        LineSide::New,
        s.with_row(culled(ctx, s.len(), message_row(ctx, dl, s.len()))),
    )
}

/// Render a commit-message line in side-by-side mode. The commit message is a
/// synthetic "added" file, but visually it is prose, not code. So it is a
/// single full-width, left-aligned, neutrally-styled row with no column split,
/// diff coloring, or per-column line numbers, and it wraps at full width.
pub fn render_commit_message_line_side_by_side(
    diff_line: &DiffLine,
    file: &DiffFile,
    ctx: &SideBySideContext,
    file_idx: usize,
    out: &mut SideBySideRows,
)
    requires
        ctx.wf(),
    ensures
        final(out)@ == message_shown(*ctx, *file, file_idx as int, *diff_line, old(out)@),
{
    let style = ctx.theme.diff_context_style;
    if ctx.is_visible(out.rows.len()) {
        proof {
            reveal_strlit("  ");
            assert("  "@ =~= blanks(2));
        }
        let mut spans = ctx.indicator_spans(out.rows.len());
        push_text(&mut spans, "  ", style);
        push_text(&mut spans, diff_line.content.as_str(), style);
        assert(runs(spans@) =~= ctx.indicator(out@.len()) + seq![
            (blanks(2), style),
            (diff_line.content@, style),
        ]);
        out.push_full(spans);
    } else {
        out.push_blank();
    }
    add_notes_to_line(diff_line.new_lineno, LineSide::New, file, ctx, file_idx, out);
}

/// The number of a line on the old side.
pub open spec fn old_lineno(line: Option<DiffLine>) -> Option<u32> {
    match line {
        Some(dl) => dl.old_lineno,
        None => None,
    }
}

/// The number of a line on the new side.
pub open spec fn new_lineno(line: Option<DiffLine>) -> Option<u32> {
    match line {
        Some(dl) => dl.new_lineno,
        None => None,
    }
}

/// The sheet with a row of a change block, and what is said about its deletion
/// and then about its addition.
pub open spec fn pair_shown(
    ctx: SideBySideContext,
    file: DiffFile,
    file_idx: int,
    deletion: Option<DiffLine>,
    addition: Option<DiffLine>,
    s: Sheet,
) -> Sheet {
    let t = s.with_row(culled(ctx, s.len(), change_row(ctx, deletion, addition, s.len())));
    notes_shown(
        ctx,
        file,
        file_idx,
        new_lineno(addition),
        LineSide::New,
        notes_shown(ctx, file, file_idx, old_lineno(deletion), LineSide::Old, t),
    )
}

/// The sheet with the first `n` rows of a change block.
pub open spec fn first_pairs_shown(
    ctx: SideBySideContext,
    file: DiffFile,
    file_idx: int,
    lines: Seq<DiffLine>,
    pairs: Seq<BlockRow>,
    n: int,
    s: Sheet,
) -> Sheet
    decreases n,
{
    if n <= 0 {
        s
    } else {
        pair_shown(
            ctx,
            file,
            file_idx,
            line_at(lines, pairs[n - 1].0),
            line_at(lines, pairs[n - 1].1),
            first_pairs_shown(ctx, file, file_idx, lines, pairs, n - 1, s),
        )
    }
}

/// The sheet with a change block.
pub open spec fn block_shown(
    ctx: SideBySideContext,
    file: DiffFile,
    file_idx: int,
    lines: Seq<DiffLine>,
    block: ChangeBlock,
    s: Sheet,
) -> Sheet {
    first_pairs_shown(ctx, file, file_idx, lines, block.paired(), block.row_count(), s)
}

/// Render a change block as side-by-side rows: each line pair on one row,
/// then the unpaired tail with the other column empty.
pub fn render_change_block_side_by_side(
    hunk: &DiffHunk,
    block: &ChangeBlock,
    file: &DiffFile,
    ctx: &SideBySideContext,
    file_idx: usize,
    out: &mut SideBySideRows,
)
    requires
        ctx.wf(),
        block.inside(hunk.lines@.len()),
    ensures
        final(out)@ == block_shown(
            *ctx,
            *file,
            file_idx as int,
            hunk.lines@,
            *block,
            old(out)@,
        ),
{
    let pairs = block.rows();
    let mut i: usize = 0;
    while i < pairs.len()
        invariant
            i <= pairs.len(),
            ctx.wf(),
            pairs@ == block.paired(),
            block.inside(hunk.lines@.len()),
            out@ == first_pairs_shown(
                *ctx,
                *file,
                file_idx as int,
                hunk.lines@,
                pairs@,
                i as int,
                old(out)@,
            ),
        decreases pairs.len() - i,
    {
        let (deletion, addition) = pairs[i];
        if ctx.is_visible(out.rows.len()) {
            push_change_row(&hunk.lines, deletion, addition, ctx, out);
        } else {
            out.push_blank();
        }
        let old_lineno = match deletion {
            Some(at) => hunk.lines[at].old_lineno,
            None => None,
        };
        add_notes_to_line(old_lineno, LineSide::Old, file, ctx, file_idx, out);
        let new_lineno = match addition {
            Some(at) => hunk.lines[at].new_lineno,
            None => None,
        };
        add_notes_to_line(new_lineno, LineSide::New, file, ctx, file_idx, out);
        i = i + 1;
    }
}

/// The sheet with a segment of a hunk. The lines of a commit message are
/// context lines, and would stand in both columns; they are shown as prose
/// instead.
pub open spec fn segment_shown(
    ctx: SideBySideContext,
    file: DiffFile,
    file_idx: int,
    lines: Seq<DiffLine>,
    segment: HunkSegment,
    s: Sheet,
) -> Sheet {
    match segment {
        HunkSegment::Context(at) => {
            if file.is_commit_message {
                message_shown(ctx, file, file_idx, lines[at as int], s)
            } else {
                context_shown(ctx, file, file_idx, lines[at as int], s)
            }
        },
        HunkSegment::ChangeBlock(block) => block_shown(ctx, file, file_idx, lines, block, s),
    }
}

/// The sheet with the first `n` segments of a hunk.
pub open spec fn first_segments_shown(
    ctx: SideBySideContext,
    file: DiffFile,
    file_idx: int,
    hunk: DiffHunk,
    n: int,
    s: Sheet,
) -> Sheet
    decreases n,
{
    if n <= 0 {
        s
    } else {
        segment_shown(
            ctx,
            file,
            file_idx,
            hunk.lines@,
            hunk.segments@[n - 1],
            first_segments_shown(ctx, file, file_idx, hunk, n - 1, s),
        )
    }
}

/// Process and render all diff lines in a hunk for side-by-side view.
pub fn render_hunk_lines_side_by_side(
    hunk: &DiffHunk,
    file: &DiffFile,
    ctx: &SideBySideContext,
    file_idx: usize,
    out: &mut SideBySideRows,
)
    requires
        ctx.wf(),
        hunk.wf(),
    ensures
        final(out)@ == first_segments_shown(
            *ctx,
            *file,
            file_idx as int,
            *hunk,
            hunk.segments@.len() as int,
            old(out)@,
        ),
{
    let mut i: usize = 0;
    while i < hunk.segments.len()
        invariant
            i <= hunk.segments.len(),
            ctx.wf(),
            hunk.wf(),
            out@ == first_segments_shown(
                *ctx,
                *file,
                file_idx as int,
                *hunk,
                i as int,
                old(out)@,
            ),
        decreases hunk.segments.len() - i,
    {
        match &hunk.segments[i] {
            HunkSegment::Context(at) => {
                if file.is_commit_message {
                    render_commit_message_line_side_by_side(
                        &hunk.lines[*at],
                        file,
                        ctx,
                        file_idx,
                        out,
                    );
                } else {
                    render_context_line_side_by_side(
                        &hunk.lines[*at],
                        file,
                        ctx,
                        file_idx,
                        out,
                    );
                }
            },
            HunkSegment::ChangeBlock(block) => {
                render_change_block_side_by_side(hunk, block, file, ctx, file_idx, out);
            },
        }
        i = i + 1;
    }
}

} // verus!
