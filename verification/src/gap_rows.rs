//! Rows for the lines of a file that no hunk shows: those that were asked for,
//! and stubs for the rest.

use crate::context::SideBySideContext;
use crate::hunk_rows::culled;
use crate::line_rows::{expanded_row, render_sbs_expanded_context_line};
use crate::model::{DiffFile, DiffHunk, DiffLine, ExpandedLines, FileStatus};
use crate::rows::{ExpandDirection, GapStub, Row, RowView, Sheet, SideBySideRows};
use vstd::prelude::*;

verus! {

/// How many of `gap` lines are still hidden.
pub open spec fn remaining_lines(gap: int, expanded: ExpandedLines) -> int {
    let shown = expanded.top@.len() + expanded.bottom@.len();
    if gap <= shown {
        0
    } else {
        gap - shown
    }
}

/// How many of `gap` lines are still hidden.
fn count_remaining(gap: u32, expanded: &ExpandedLines) -> (remaining: usize)
    ensures
        remaining == remaining_lines(gap as int, *expanded),
{
    (gap as usize).saturating_sub(expanded.top.len()).saturating_sub(expanded.bottom.len())
}

/// The stubs for the hidden lines above a hunk. Above the first hunk lines can
/// only be asked for upwards; between hunks one stub asks for all of a small
/// gap.
pub open spec fn stubs_above(remaining: int, is_first: bool, batch: int) -> Seq<GapStub> {
    if remaining <= 0 {
        Seq::empty()
    } else if is_first {
        if remaining > batch {
            seq![GapStub::Hidden, GapStub::Expander(ExpandDirection::Up)]
        } else {
            seq![GapStub::Expander(ExpandDirection::Up)]
        }
    } else if remaining >= batch {
        seq![
            GapStub::Expander(ExpandDirection::Down),
            GapStub::Hidden,
            GapStub::Expander(ExpandDirection::Up),
        ]
    } else {
        seq![GapStub::Expander(ExpandDirection::Both)]
    }
}

/// The stubs for the hidden lines after the last hunk, which can only be asked
/// for downwards.
pub open spec fn stubs_at_end(remaining: int, batch: int) -> Seq<GapStub> {
    if remaining <= 0 {
        Seq::empty()
    } else if remaining > batch {
        seq![GapStub::Expander(ExpandDirection::Down), GapStub::Hidden]
    } else {
        seq![GapStub::Expander(ExpandDirection::Down)]
    }
}

/// The rows of stubs from row `top` on.
pub open spec fn stub_rows(
    ctx: SideBySideContext,
    stubs: Seq<GapStub>,
    remaining: usize,
    top: int,
) -> Seq<RowView> {
    Seq::new(
        stubs.len(),
        |k: int|
            RowView::Gap {
                stub: stubs[k],
                remaining,
                on_cursor: top + k == ctx.current_line_idx,
            },
    )
}

/// The rows of expanded lines from row `top` on; where `cull` says so, those
/// outside the viewport are blank.
pub open spec fn expanded_rows(
    ctx: SideBySideContext,
    lines: Seq<DiffLine>,
    cull: bool,
    top: int,
) -> Seq<RowView> {
    Seq::new(
        lines.len(),
        |k: int|
            if cull {
                culled(ctx, top + k, expanded_row(ctx, lines[k], top + k))
            } else {
                expanded_row(ctx, lines[k], top + k)
            },
    )
}

/// The sheet with a gap: lines expanded from above, stubs, lines expanded from
/// below.
pub open spec fn gap_rows_shown(
    ctx: SideBySideContext,
    expanded: ExpandedLines,
    stubs: Seq<GapStub>,
    remaining: usize,
    cull: bool,
    s: Sheet,
) -> Sheet {
    let t = s.with_rows(expanded_rows(ctx, expanded.top@, cull, s.len()));
    let u = t.with_rows(stub_rows(ctx, stubs, remaining, t.len()));
    u.with_rows(expanded_rows(ctx, expanded.bottom@, cull, u.len()))
}

/// The sheet with the gap above a hunk.
pub open spec fn gap_shown(
    ctx: SideBySideContext,
    hunk: DiffHunk,
    is_first: bool,
    s: Sheet,
) -> Sheet {
    if hunk.gap_before > 0 && hunk.shows_gap {
        let remaining = remaining_lines(hunk.gap_before as int, hunk.expanded);
        gap_rows_shown(
            ctx,
            hunk.expanded,
            stubs_above(remaining, is_first, ctx.gap_expand_batch as int),
            remaining as usize,
            true,
            s,
        )
    } else {
        s
    }
}

/// Whether a file has lines after its last hunk that can be shown.
pub open spec fn has_end_gap(ctx: SideBySideContext, file: DiffFile) -> bool {
    &&& file.may_end_in_gap(ctx.shows_end_gaps)
    &&& file.line_count is Some
    &&& file.end_start() <= file.line_count->0
}

/// The sheet with the gap after a file's last hunk.
pub open spec fn end_gap_shown(ctx: SideBySideContext, file: DiffFile, s: Sheet) -> Sheet {
    if has_end_gap(ctx, file) {
        let remaining = remaining_lines(
            file.line_count->0 - file.end_start() + 1,
            file.expanded_end,
        );
        gap_rows_shown(
            ctx,
            file.expanded_end,
            stubs_at_end(remaining, ctx.gap_expand_batch as int),
            remaining as usize,
            false,
            s,
        )
    } else {
        s
    }
}

/// The stubs for the hidden lines above a hunk.
fn list_stubs_above(remaining: usize, is_first: bool, batch: usize) -> (stubs: Vec<GapStub>)
    ensures
        stubs@ == stubs_above(remaining as int, is_first, batch as int),
{
    let mut stubs: Vec<GapStub> = Vec::new();
    if remaining > 0 {
        if is_first {
            if remaining > batch {
                stubs.push(GapStub::Hidden);
            }
            stubs.push(GapStub::Expander(ExpandDirection::Up));
        } else if remaining >= batch {
            stubs.push(GapStub::Expander(ExpandDirection::Down));
            stubs.push(GapStub::Hidden);
            stubs.push(GapStub::Expander(ExpandDirection::Up));
        } else {
            stubs.push(GapStub::Expander(ExpandDirection::Both));
        }
    }
    assert(stubs@ =~= stubs_above(remaining as int, is_first, batch as int));
    stubs
}

/// The stubs for the hidden lines after the last hunk.
fn list_stubs_at_end(remaining: usize, batch: usize) -> (stubs: Vec<GapStub>)
    ensures
        stubs@ == stubs_at_end(remaining as int, batch as int),
{
    let mut stubs: Vec<GapStub> = Vec::new();
    if remaining > 0 {
        stubs.push(GapStub::Expander(ExpandDirection::Down));
        if remaining > batch {
            stubs.push(GapStub::Hidden);
        }
    }
    assert(stubs@ =~= stubs_at_end(remaining as int, batch as int));
    stubs
}

/// Append stubs.
fn push_stubs(
    stubs: &Vec<GapStub>,
    remaining: usize,
    ctx: &SideBySideContext,
    out: &mut SideBySideRows,
)
    ensures
        final(out)@ == old(out)@.with_rows(stub_rows(*ctx, stubs@, remaining, old(out)@.len())),
{
    let ghost more = stub_rows(*ctx, stubs@, remaining, old(out)@.len());
    let mut k: usize = 0;
    assert(out@ =~= old(out)@.with_rows(more.take(0)));
    while k < stubs.len()
        invariant
            k <= stubs.len(),
            more == stub_rows(*ctx, stubs@, remaining, old(out)@.len()),
            out@ == old(out)@.with_rows(more.take(k as int)),
        decreases stubs.len() - k,
    {
        let on_cursor = out.rows.len() == ctx.current_line_idx;
        out.push(Row::Gap { stub: stubs[k], remaining, on_cursor });
        k = k + 1;
        assert(out@ =~= old(out)@.with_rows(more.take(k as int)));
    }
    assert(more.take(k as int) =~= more);
}

/// Append expanded lines.
fn push_expanded(
    lines: &Vec<DiffLine>,
    cull: bool,
    ctx: &SideBySideContext,
    out: &mut SideBySideRows,
)
    ensures
        final(out)@ == old(out)@.with_rows(expanded_rows(*ctx, lines@, cull, old(out)@.len())),
{
    let ghost more = expanded_rows(*ctx, lines@, cull, old(out)@.len());
    let mut k: usize = 0;
    assert(out@ =~= old(out)@.with_rows(more.take(0)));
    while k < lines.len()
        invariant
            k <= lines.len(),
            more == expanded_rows(*ctx, lines@, cull, old(out)@.len()),
            out@ == old(out)@.with_rows(more.take(k as int)),
        decreases lines.len() - k,
    {
        if cull && !ctx.is_visible(out.rows.len()) {
            out.push_blank();
        } else {
            render_sbs_expanded_context_line(&lines[k], ctx, out);
        }
        k = k + 1;
        assert(out@ =~= old(out)@.with_rows(more.take(k as int)));
    }
    assert(more.take(k as int) =~= more);
}

/// Render the gap above a hunk.
pub fn render_gap_above(
    hunk: &DiffHunk,
    is_first: bool,
    ctx: &SideBySideContext,
    out: &mut SideBySideRows,
)
    ensures
        final(out)@ == gap_shown(*ctx, *hunk, is_first, old(out)@),
{
    if hunk.gap_before > 0 && hunk.shows_gap {
        let remaining: usize = count_remaining(hunk.gap_before, &hunk.expanded);
        let stubs = list_stubs_above(remaining, is_first, ctx.gap_expand_batch);
        push_expanded(&hunk.expanded.top, true, ctx, out);
        push_stubs(&stubs, remaining, ctx, out);
        push_expanded(&hunk.expanded.bottom, true, ctx, out);
    }
}

/// Render the end-of-file gap (after all hunks, not for deleted files).
pub fn render_end_gap(file: &DiffFile, ctx: &SideBySideContext, out: &mut SideBySideRows)
    requires
        file.wf(ctx.shows_end_gaps),
    ensures
        final(out)@ == end_gap_shown(*ctx, *file, old(out)@),
{
    if file.status == FileStatus::Deleted || !ctx.shows_end_gaps || file.hunks.len() == 0 {
        return;
    }
    let last = &file.hunks[file.hunks.len() - 1];
    let end_start: u32 = last.new_start + last.new_count;
    if let Some(total) = file.line_count {
        if end_start <= total {
            let gap: u32 = total - end_start + 1;
            let remaining: usize = count_remaining(gap, &file.expanded_end);
            let stubs = list_stubs_at_end(remaining, ctx.gap_expand_batch);
            push_expanded(&file.expanded_end.top, false, ctx, out);
            push_stubs(&stubs, remaining, ctx, out);
            push_expanded(&file.expanded_end.bottom, false, ctx, out);
        }
    }
}

} // verus!
