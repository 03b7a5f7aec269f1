//! A review as side-by-side rows: the review's own comments, then file by file
//! the hunks with what was said about them.

use crate::context::{InputMode, SideBySideContext};
use crate::gap_rows::{end_gap_shown, gap_shown, render_end_gap, render_gap_above};
use crate::hunk_rows::{first_segments_shown, render_hunk_lines_side_by_side};
use crate::model::{Comment, DiffFile, DiffHunk, RemoteReviewThread};
use crate::rows::{RowView, Sheet, SideBySideRows};
use crate::style::{copy_spans, plain_style, push_text, runs, Line, Style, DIM};
use vstd::prelude::*;

verus! {

/// The summary of a remote review, formatted for the panel it is shown in.
#[derive(Debug)]
pub struct ReviewSummary {
    pub lines: Vec<Line>,
}

/// What a review shows, top to bottom.
#[derive(Debug)]
pub struct ReviewDocument {
    /// Finished rows about the pull request.
    pub pr_info: Vec<Line>,
    pub shows_review_comments_header: bool,
    pub review_summaries: Vec<ReviewSummary>,
    pub review_comments: Vec<Comment>,
    /// Finished rows of the pull request's own discussion.
    pub issue_comments: Vec<Line>,
    pub files: Vec<DiffFile>,
}

impl ReviewDocument {
    /// Whether the files are well-formed.
    pub open spec fn wf(self, shows_end_gaps: bool) -> bool {
        forall|i: int|
            0 <= i < self.files@.len() ==> (#[trigger] self.files@[i]).wf(shows_end_gaps)
    }

    /// Whether the files are well-formed.
    pub fn is_wf(&self, shows_end_gaps: bool) -> (yes: bool)
        ensures
            yes == self.wf(shows_end_gaps),
    {
        let mut i: usize = 0;
        while i < self.files.len()
            invariant
                i <= self.files.len(),
                forall|j: int|
                    0 <= j < i ==> (#[trigger] self.files@[j]).wf(shows_end_gaps),
            decreases self.files.len() - i,
        {
            if !self.files[i].is_wf(shows_end_gaps) {
                return false;
            }
            i = i + 1;
        }
        true
    }
}

/// The sheet with the comments of the review or of a file: the input box in
/// place of the one that is being edited.
pub open spec fn boxed_comment_shown(
    ctx: SideBySideContext,
    comment: Comment,
    writing: bool,
    s: Sheet,
) -> Sheet {
    if ctx.edits(comment) && writing {
        ctx.input_shown(s, ctx.comment_input.lines@.len() as int, comment.rows)
    } else {
        ctx.box_shown(s, comment)
    }
}

/// Append a comment of the review or of a file.
fn push_boxed_comment(
    comment: &Comment,
    writing: bool,
    ctx: &SideBySideContext,
    out: &mut SideBySideRows,
)
    requires
        ctx.wf(),
        writing ==> ctx.input_mode == InputMode::Comment,
    ensures
        final(out)@ == boxed_comment_shown(*ctx, *comment, writing, old(out)@),
{
    if ctx.is_edited(comment) && writing {
        ctx.push_input(ctx.comment_input.lines.len(), comment.rows, out);
    } else {
        ctx.push_box(comment, out);
    }
}

/// The sheet with the first `n` comments of a file that pass the filter.
pub open spec fn first_file_comments_shown(
    ctx: SideBySideContext,
    comments: Seq<Comment>,
    writing: bool,
    n: int,
    s: Sheet,
) -> Sheet
    decreases n,
{
    if n <= 0 {
        s
    } else {
        let t = first_file_comments_shown(ctx, comments, writing, n - 1, s);
        if comments[n - 1].is_visible {
            boxed_comment_shown(ctx, comments[n - 1], writing, t)
        } else {
            t
        }
    }
}

/// The sheet with a file's comments, and the input box of a new one that is
/// being written.
pub open spec fn file_comments_shown(
    ctx: SideBySideContext,
    file: DiffFile,
    file_idx: int,
    s: Sheet,
) -> Sheet {
    let writing = ctx.writes_file_comment(file_idx);
    let t = first_file_comments_shown(
        ctx,
        file.file_comments@,
        writing,
        file.file_comments@.len() as int,
        s,
    );
    if writing && ctx.editing_comment_id is None {
        ctx.input_shown(t, ctx.comment_input.lines@.len() as int, 0)
    } else {
        t
    }
}

/// Append a file's comments.
fn render_file_comments(
    file: &DiffFile,
    file_idx: usize,
    ctx: &SideBySideContext,
    out: &mut SideBySideRows,
)
    requires
        ctx.wf(),
    ensures
        final(out)@ == file_comments_shown(*ctx, *file, file_idx as int, old(out)@),
{
    let writing = ctx.is_writing_file_comment(file_idx);
    let mut i: usize = 0;
    while i < file.file_comments.len()
        invariant
            i <= file.file_comments.len(),
            ctx.wf(),
            writing ==> ctx.input_mode == InputMode::Comment,
            out@ == first_file_comments_shown(
                *ctx,
                file.file_comments@,
                writing,
                i as int,
                old(out)@,
            ),
        decreases file.file_comments.len() - i,
    {
        if file.file_comments[i].is_visible {
            push_boxed_comment(&file.file_comments[i], writing, ctx, out);
        }
        i = i + 1;
    }
    if writing && ctx.editing_comment_id.is_none() {
        ctx.push_input(ctx.comment_input.lines.len(), 0, out);
    }
}

/// The row of a hunk's header.
pub open spec fn hunk_header_row(ctx: SideBySideContext, hunk: DiffHunk, row: int) -> RowView {
    RowView::Full(ctx.indicator_spaced(row).push((hunk.header@, hunk.header_style)))
}

/// The sheet with a hunk: the gap above it, its header, and its lines unless it
/// is folded.
pub open spec fn hunk_shown(
    ctx: SideBySideContext,
    file: DiffFile,
    file_idx: int,
    hunk_idx: int,
    s: Sheet,
) -> Sheet {
    let hunk = file.hunks@[hunk_idx];
    let t = gap_shown(ctx, hunk, hunk_idx == 0, s);
    let u = t.with_row(hunk_header_row(ctx, hunk, t.len()));
    if hunk.is_collapsed {
        u
    } else {
        first_segments_shown(ctx, file, file_idx, hunk, hunk.segments@.len() as int, u)
    }
}

/// The sheet with the first `n` hunks of a file.
pub open spec fn first_hunks_shown(
    ctx: SideBySideContext,
    file: DiffFile,
    file_idx: int,
    n: int,
    s: Sheet,
) -> Sheet
    decreases n,
{
    if n <= 0 {
        s
    } else {
        hunk_shown(ctx, file, file_idx, n - 1, first_hunks_shown(ctx, file, file_idx, n - 1, s))
    }
}

/// The row in place of a file's hunks where there is nothing to show.
pub open spec fn empty_label_row(ctx: SideBySideContext, file: DiffFile, row: int) -> RowView {
    RowView::Full(
        ctx.indicator_spaced(row).push((file.empty_label@, ctx.theme.dim_style)),
    )
}

/// The sheet with a file's hunks.
pub open spec fn hunks_shown(
    ctx: SideBySideContext,
    file: DiffFile,
    file_idx: int,
    s: Sheet,
) -> Sheet {
    if file.is_bare() {
        s.with_row(empty_label_row(ctx, file, s.len()))
    } else {
        first_hunks_shown(ctx, file, file_idx, file.hunks@.len() as int, s)
    }
}

/// Append a hunk.
fn render_hunk(
    file: &DiffFile,
    file_idx: usize,
    hunk_idx: usize,
    ctx: &SideBySideContext,
    out: &mut SideBySideRows,
)
    requires
        ctx.wf(),
        file.wf(ctx.shows_end_gaps),
        hunk_idx < file.hunks@.len(),
    ensures
        final(out)@ == hunk_shown(*ctx, *file, file_idx as int, hunk_idx as int, old(out)@),
{
    let hunk = &file.hunks[hunk_idx];
    render_gap_above(hunk, hunk_idx == 0, ctx, out);
    let mut spans = ctx.indicator_spaced_spans(out.rows.len());
    push_text(&mut spans, hunk.header.as_str(), hunk.header_style);
    out.push_full(spans);
    if !hunk.is_collapsed {
        render_hunk_lines_side_by_side(hunk, file, ctx, file_idx, out);
    }
}

/// Append a file's hunks.
fn render_hunks(
    file: &DiffFile,
    file_idx: usize,
    ctx: &SideBySideContext,
    out: &mut SideBySideRows,
)
    requires
        ctx.wf(),
        file.wf(ctx.shows_end_gaps),
    ensures
        final(out)@ == hunks_shown(*ctx, *file, file_idx as int, old(out)@),
{
    if file.is_too_large || file.is_binary || file.hunks.len() == 0 {
        let mut spans = ctx.indicator_spaced_spans(out.rows.len());
        push_text(&mut spans, file.empty_label.as_str(), ctx.theme.dim_style);
        out.push_full(spans);
    } else {
        let mut i: usize = 0;
        while i < file.hunks.len()
            invariant
                i <= file.hunks.len(),
                ctx.wf(),
                file.wf(ctx.shows_end_gaps),
                out@ == first_hunks_shown(*ctx, *file, file_idx as int, i as int, old(out)@),
            decreases file.hunks.len() - i,
        {
            render_hunk(file, file_idx, i, ctx, out);
            i = i + 1;
        }
    }
}

/// Whether a file has rows at all.
pub open spec fn file_listed(ctx: SideBySideContext, file: DiffFile, file_idx: int) -> bool {
    (ctx.is_single_file_view ==> file_idx == ctx.current_file_idx) && file.passes_filter
}

/// The row of a file's header.
pub open spec fn file_header_row(ctx: SideBySideContext, file: DiffFile, row: int) -> RowView {
    RowView::Full(
        ctx.indicator_spaced(row).push((file.header@, ctx.theme.file_header_style)).push(
            (ctx.labels.header_rule@, ctx.theme.file_header_style),
        ),
    )
}

/// The style of the banner over a reviewed file.
pub open spec fn banner_style(ctx: SideBySideContext) -> Style {
    Style { fg: Some(ctx.theme.fg_secondary), add_modifier: DIM, ..plain_style() }
}

/// The row of the banner over a reviewed file.
pub open spec fn banner_row(ctx: SideBySideContext, row: int) -> RowView {
    RowView::Full(
        ctx.indicator(row).push((ctx.labels.reviewed_banner@, banner_style(ctx))),
    )
}

/// The sheet with what stands below a file's header.
pub open spec fn file_body_shown(
    ctx: SideBySideContext,
    file: DiffFile,
    file_idx: int,
    s: Sheet,
) -> Sheet {
    let t = if file.is_reviewed && ctx.is_single_file_view {
        s.with_row(banner_row(ctx, s.len()))
    } else {
        s
    };
    let u = end_gap_shown(
        ctx,
        file,
        hunks_shown(ctx, file, file_idx, file_comments_shown(ctx, file, file_idx, t)),
    );
    u.with_row(RowView::Full(ctx.indicator(u.len())))
}

/// The sheet with a file: nothing where the file is not listed, the header
/// alone where it is folded.
pub open spec fn file_shown(
    ctx: SideBySideContext,
    file: DiffFile,
    file_idx: int,
    s: Sheet,
) -> Sheet {
    if !file_listed(ctx, file, file_idx) {
        s
    } else {
        let t = if ctx.is_single_file_view {
            s
        } else {
            s.with_row(file_header_row(ctx, file, s.len()))
        };
        if file.is_collapsed {
            t
        } else {
            file_body_shown(ctx, file, file_idx, t)
        }
    }
}

/// The sheet with the first `n` files.
pub open spec fn first_files_shown(
    ctx: SideBySideContext,
    files: Seq<DiffFile>,
    n: int,
    s: Sheet,
) -> Sheet
    decreases n,
{
    if n <= 0 {
        s
    } else {
        file_shown(ctx, files[n - 1], n - 1, first_files_shown(ctx, files, n - 1, s))
    }
}

/// Append what stands below a file's header.
fn render_file_body(
    file: &DiffFile,
    file_idx: usize,
    ctx: &SideBySideContext,
    out: &mut SideBySideRows,
)
    requires
        ctx.wf(),
        file.wf(ctx.shows_end_gaps),
    ensures
        final(out)@ == file_body_shown(*ctx, *file, file_idx as int, old(out)@),
{
    if file.is_reviewed && ctx.is_single_file_view {
        let mut spans = ctx.indicator_spans(out.rows.len());
        let style = Style {
            fg: Some(ctx.theme.fg_secondary),
            bg: None,
            add_modifier: DIM,
            sub_modifier: 0,
        };
        push_text(&mut spans, ctx.labels.reviewed_banner.as_str(), style);
        out.push_full(spans);
    }
    render_file_comments(file, file_idx, ctx, out);
    render_hunks(file, file_idx, ctx, out);
    render_end_gap(file, ctx, out);
    let spans = ctx.indicator_spans(out.rows.len());
    out.push_full(spans);
}

/// Render a file: its header, comments, hunks, and a row of space after it.
pub fn render_file_side_by_side(
    file: &DiffFile,
    file_idx: usize,
    ctx: &SideBySideContext,
    out: &mut SideBySideRows,
)
    requires
        ctx.wf(),
        file.wf(ctx.shows_end_gaps),
    ensures
        final(out)@ == file_shown(*ctx, *file, file_idx as int, old(out)@),
{
    if (ctx.is_single_file_view && file_idx != ctx.current_file_idx) || !file.passes_filter {
        return;
    }
    if !ctx.is_single_file_view {
        let mut spans = ctx.indicator_spaced_spans(out.rows.len());
        push_text(&mut spans, file.header.as_str(), ctx.theme.file_header_style);
        push_text(&mut spans, ctx.labels.header_rule.as_str(), ctx.theme.file_header_style);
        out.push_full(spans);
    }
    if file.is_collapsed {
        return;
    }
    render_file_body(file, file_idx, ctx, out);
}

/// Finished lines as rows.
pub open spec fn finished_rows(lines: Seq<Line>) -> Seq<RowView> {
    Seq::new(lines.len(), |k: int| RowView::Full(runs(lines[k].spans@)))
}

/// Append finished lines.
fn push_finished(lines: &Vec<Line>, out: &mut SideBySideRows)
    ensures
        final(out)@ == old(out)@.with_rows(finished_rows(lines@)),
{
    let ghost more = finished_rows(lines@);
    let mut k: usize = 0;
    assert(out@ =~= old(out)@.with_rows(more.take(0)));
    while k < lines.len()
        invariant
            k <= lines.len(),
            more == finished_rows(lines@),
            out@ == old(out)@.with_rows(more.take(k as int)),
        decreases lines.len() - k,
    {
        out.push_full(copy_spans(&lines[k].spans));
        k = k + 1;
        assert(out@ =~= old(out)@.with_rows(more.take(k as int)));
    }
    assert(more.take(k as int) =~= more);
}

/// The row over the review's own comments.
pub open spec fn review_header_row(ctx: SideBySideContext, row: int) -> RowView {
    RowView::Full(
        ctx.indicator_spaced(row).push(
            (ctx.labels.review_comments_header@, ctx.theme.file_header_style),
        ).push((ctx.labels.header_rule@, ctx.theme.file_header_style)),
    )
}

/// The sheet with the first `n` summaries of remote reviews.
pub open spec fn first_summaries_shown(
    ctx: SideBySideContext,
    summaries: Seq<ReviewSummary>,
    n: int,
    s: Sheet,
) -> Sheet
    decreases n,
{
    if n <= 0 {
        s
    } else {
        let t = first_summaries_shown(ctx, summaries, n - 1, s);
        t.with_rows(ctx.indicated_rows(summaries[n - 1].lines@, t.len()))
    }
}

/// The sheet with the first `n` comments of the review.
pub open spec fn first_review_comments_shown(
    ctx: SideBySideContext,
    comments: Seq<Comment>,
    n: int,
    s: Sheet,
) -> Sheet
    decreases n,
{
    if n <= 0 {
        s
    } else {
        boxed_comment_shown(
            ctx,
            comments[n - 1],
            ctx.writes_review_comment(),
            first_review_comments_shown(ctx, comments, n - 1, s),
        )
    }
}

/// Whether a thread speaks of the review as a whole and is shown.
pub open spec fn is_general(thread: RemoteReviewThread) -> bool {
    thread.line is None && thread.is_shown
}

/// The sheet with those of the first `n` threads that speak of the review as a
/// whole.
pub open spec fn first_general_threads_shown(ctx: SideBySideContext, n: int, s: Sheet) -> Sheet
    decreases n,
{
    if n <= 0 {
        s
    } else {
        let t = first_general_threads_shown(ctx, n - 1, s);
        if is_general(ctx.remote_threads@[n - 1]) {
            t.with_rows(ctx.indicated_rows(ctx.remote_threads@[n - 1].lines@, t.len()))
        } else {
            t
        }
    }
}

/// The sheet with the threads that speak of the review as a whole; none where
/// remote comments are hidden.
pub open spec fn general_threads_shown(ctx: SideBySideContext, s: Sheet) -> Sheet {
    if ctx.hides_remote_comments {
        s
    } else {
        first_general_threads_shown(ctx, ctx.remote_threads@.len() as int, s)
    }
}

/// The sheet with what stands over the files: rows about the pull request, the
/// review's own comments, and the pull request's discussion.
pub open spec fn review_shown(ctx: SideBySideContext, doc: ReviewDocument, s: Sheet) -> Sheet {
    let a = s.with_rows(finished_rows(doc.pr_info@));
    let b = if doc.shows_review_comments_header {
        a.with_row(review_header_row(ctx, a.len()))
    } else {
        a
    };
    let c = first_summaries_shown(
        ctx,
        doc.review_summaries@,
        doc.review_summaries@.len() as int,
        b,
    );
    let d = first_review_comments_shown(
        ctx,
        doc.review_comments@,
        doc.review_comments@.len() as int,
        c,
    );
    let e = general_threads_shown(ctx, d);
    if ctx.writes_review_comment() && ctx.editing_comment_id is None {
        ctx.input_shown(e, ctx.comment_input.lines@.len() as int, 0)
    } else {
        e
    }
}

/// Render what stands over the files, up to the pull request's discussion.
pub fn render_review_side_by_side(
    doc: &ReviewDocument,
    ctx: &SideBySideContext,
    out: &mut SideBySideRows,
)
    requires
        ctx.wf(),
    ensures
        final(out)@ == review_shown(*ctx, *doc, old(out)@),
{
    push_finished(&doc.pr_info, out);
    if doc.shows_review_comments_header {
        let mut spans = ctx.indicator_spaced_spans(out.rows.len());
        push_text(
            &mut spans,
            ctx.labels.review_comments_header.as_str(),
            ctx.theme.file_header_style,
        );
        push_text(&mut spans, ctx.labels.header_rule.as_str(), ctx.theme.file_header_style);
        out.push_full(spans);
    }
    let ghost start = out@;
    let mut i: usize = 0;
    while i < doc.review_summaries.len()
        invariant
            i <= doc.review_summaries.len(),
            out@ == first_summaries_shown(*ctx, doc.review_summaries@, i as int, start),
        decreases doc.review_summaries.len() - i,
    {
        ctx.push_lines(&doc.review_summaries[i].lines, out);
        i = i + 1;
    }
    let ghost start = out@;
    let writing = ctx.is_writing_review_comment();
    let mut i: usize = 0;
    while i < doc.review_comments.len()
        invariant
            i <= doc.review_comments.len(),
            ctx.wf(),
            writing == ctx.writes_review_comment(),
            out@ == first_review_comments_shown(*ctx, doc.review_comments@, i as int, start),
        decreases doc.review_comments.len() - i,
    {
        push_boxed_comment(&doc.review_comments[i], writing, ctx, out);
        i = i + 1;
    }
    render_general_threads(ctx, out);
    if writing && ctx.editing_comment_id.is_none() {
        ctx.push_input(ctx.comment_input.lines.len(), 0, out);
    }
}

/// Render the threads that speak of the review as a whole.
fn render_general_threads(ctx: &SideBySideContext, out: &mut SideBySideRows)
    ensures
        final(out)@ == general_threads_shown(*ctx, old(out)@),
{
    if ctx.hides_remote_comments {
        return;
    }
    let mut i: usize = 0;
    while i < ctx.remote_threads.len()
        invariant
            i <= ctx.remote_threads.len(),
            out@ == first_general_threads_shown(*ctx, i as int, old(out)@),
        decreases ctx.remote_threads.len() - i,
    {
        let thread = &ctx.remote_threads[i];
        if thread.line.is_none() && thread.is_shown {
            ctx.push_lines(&thread.lines, out);
        }
        i = i + 1;
    }
}

/// All rows of a review.
pub open spec fn document_sheet(ctx: SideBySideContext, doc: ReviewDocument) -> Sheet {
    first_files_shown(
        ctx,
        doc.files@,
        doc.files@.len() as int,
        review_shown(ctx, doc, Sheet::empty()).with_rows(finished_rows(doc.issue_comments@)),
    )
}

/// Build all rows for side-by-side view.
pub fn render_side_by_side_diff(doc: &ReviewDocument, ctx: &SideBySideContext) -> (out:
    SideBySideRows)
    requires
        ctx.wf(),
        doc.wf(ctx.shows_end_gaps),
    ensures
        out@ == document_sheet(*ctx, *doc),
{
    let mut out = SideBySideRows::new();
    render_review_side_by_side(doc, ctx, &mut out);
    push_finished(&doc.issue_comments, &mut out);
    let ghost start = out@;
    let mut i: usize = 0;
    while i < doc.files.len()
        invariant
            i <= doc.files.len(),
            ctx.wf(),
            doc.wf(ctx.shows_end_gaps),
            out@ == first_files_shown(*ctx, doc.files@, i as int, start),
        decreases doc.files.len() - i,
    {
        render_file_side_by_side(&doc.files[i], i, ctx, &mut out);
        i = i + 1;
    }
    out
}

} // verus!
