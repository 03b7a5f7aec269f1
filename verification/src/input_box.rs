//! When the input box of a comment is part of a document.

use crate::comments::{
    comments_at, comments_shown, first_comments_shown, first_threads_shown, on_side, writes_here,
};
use crate::context::SideBySideContext;
use crate::gap_rows::{end_gap_shown, gap_shown};
use crate::hunk_rows::{
    culled, first_pairs_shown, first_segments_shown, message_row, new_lineno, notes_shown,
    old_lineno,
};
use crate::line_rows::{change_row, context_row, line_at};
use crate::model::{BlockRow, Comment, DiffFile, DiffHunk, DiffLine, HunkSegment, LineSide};
use crate::rows::Sheet;
use crate::side_by_side::{
    banner_row, document_sheet, file_comments_shown, file_header_row, file_listed, file_shown,
    finished_rows, first_file_comments_shown, first_files_shown, first_general_threads_shown,
    first_hunks_shown, first_review_comments_shown, first_summaries_shown, hunk_header_row,
    hunk_shown, hunks_shown, review_header_row, review_shown, ReviewDocument, ReviewSummary,
};
use crate::viewport::annotation_offset;
use vstd::prelude::*;

verus! {

/// Whether the comment with index `i` below a line gives its place to the
/// input box.
pub open spec fn edited_below(
    ctx: SideBySideContext,
    comments: Seq<Comment>,
    line: u32,
    side: LineSide,
    file_idx: int,
    i: int,
) -> bool {
    &&& writes_here(ctx, line, side, file_idx)
    &&& on_side(comments[i], side)
    &&& comments[i].is_visible
    &&& ctx.edits(comments[i])
}

/// Whether the input box stands below one side of a row: a comment there is
/// being edited, or a new one is being written.
pub open spec fn written_below(
    ctx: SideBySideContext,
    file: DiffFile,
    file_idx: int,
    lineno: Option<u32>,
    side: LineSide,
) -> bool {
    match lineno {
        Some(line) => {
            let comments = comments_at(file.line_comments@, line);
            ||| writes_here(ctx, line, side, file_idx) && ctx.editing_comment_id is None
            ||| exists|i: int|
                0 <= i < comments.len() && #[trigger] edited_below(
                    ctx,
                    comments,
                    line,
                    side,
                    file_idx,
                    i,
                )
        },
        None => false,
    }
}

/// Whether the input box stands below the row with index `i` of a change block.
pub open spec fn written_in_pair(
    ctx: SideBySideContext,
    file: DiffFile,
    file_idx: int,
    lines: Seq<DiffLine>,
    pairs: Seq<BlockRow>,
    i: int,
) -> bool {
    ||| written_below(
        ctx,
        file,
        file_idx,
        old_lineno(line_at(lines, pairs[i].0)),
        LineSide::Old,
    )
    ||| written_below(
        ctx,
        file,
        file_idx,
        new_lineno(line_at(lines, pairs[i].1)),
        LineSide::New,
    )
}

/// Whether the input box stands in the segment with index `i` of a hunk.
pub open spec fn written_in_segment(
    ctx: SideBySideContext,
    file: DiffFile,
    file_idx: int,
    hunk: DiffHunk,
    i: int,
) -> bool {
    match hunk.segments@[i] {
        HunkSegment::Context(at) => written_below(
            ctx,
            file,
            file_idx,
            hunk.lines@[at as int].new_lineno,
            LineSide::New,
        ),
        HunkSegment::ChangeBlock(block) => exists|k: int|
            0 <= k < block.row_count() && #[trigger] written_in_pair(
                ctx,
                file,
                file_idx,
                hunk.lines@,
                block.paired(),
                k,
            ),
    }
}

/// Whether the input box stands in the hunk with index `i` of a file.
pub open spec fn written_in_hunk(
    ctx: SideBySideContext,
    file: DiffFile,
    file_idx: int,
    i: int,
) -> bool {
    !file.hunks@[i].is_collapsed && exists|k: int|
        0 <= k < file.hunks@[i].segments@.len() && #[trigger] written_in_segment(
            ctx,
            file,
            file_idx,
            file.hunks@[i],
            k,
        )
}

/// Whether the comment with index `i` of a file gives its place to the input
/// box.
pub open spec fn edited_in_file(
    ctx: SideBySideContext,
    comments: Seq<Comment>,
    writing: bool,
    i: int,
) -> bool {
    comments[i].is_visible && ctx.edits(comments[i]) && writing
}

/// Whether the input box stands in the file with index `i`: among its comments
/// or in one of its hunks.
pub open spec fn written_in_file(ctx: SideBySideContext, files: Seq<DiffFile>, i: int) -> bool {
    let file = files[i];
    let writing = ctx.writes_file_comment(i);
    &&& file_listed(ctx, file, i)
    &&& !file.is_collapsed
    &&& {
        ||| writing && ctx.editing_comment_id is None
        ||| exists|k: int|
            0 <= k < file.file_comments@.len() && #[trigger] edited_in_file(
                ctx,
                file.file_comments@,
                writing,
                k,
            )
        ||| !file.is_bare() && exists|k: int|
            0 <= k < file.hunks@.len() && #[trigger] written_in_hunk(ctx, file, i, k)
    }
}

/// Whether the comment with index `i` of the review gives its place to the
/// input box.
pub open spec fn edited_in_review(ctx: SideBySideContext, comments: Seq<Comment>, i: int) -> bool {
    ctx.writes_review_comment() && ctx.edits(comments[i])
}

/// Whether the input box stands among the review's own comments.
pub open spec fn written_in_review(ctx: SideBySideContext, doc: ReviewDocument) -> bool {
    ||| ctx.writes_review_comment() && ctx.editing_comment_id is None
    ||| exists|i: int|
        0 <= i < doc.review_comments@.len() && #[trigger] edited_in_review(
            ctx,
            doc.review_comments@,
            i,
        )
}

/// Whether the input box stands anywhere in a document.
pub open spec fn written_in_document(ctx: SideBySideContext, doc: ReviewDocument) -> bool {
    ||| written_in_review(ctx, doc)
    ||| exists|i: int|
        0 <= i < doc.files@.len() && #[trigger] written_in_file(ctx, doc.files@, i)
}

proof fn lemma_comments_input(
    ctx: SideBySideContext,
    comments: Seq<Comment>,
    line: u32,
    side: LineSide,
    file_idx: int,
    n: int,
    s: Sheet,
)
    requires
        0 <= n <= comments.len(),
    ensures
        first_comments_shown(ctx, comments, line, side, file_idx, n, s).input is Some <==> (
        s.input is Some || exists|i: int|
            0 <= i < n && #[trigger] edited_below(ctx, comments, line, side, file_idx, i)),
    decreases n,
{
    if n > 0 {
        lemma_comments_input(ctx, comments, line, side, file_idx, n - 1, s);
        assert(first_comments_shown(ctx, comments, line, side, file_idx, n, s).input is Some <==> (
        first_comments_shown(ctx, comments, line, side, file_idx, n - 1, s).input is Some
            || edited_below(ctx, comments, line, side, file_idx, n - 1)));
    }
}

proof fn lemma_threads_input(
    ctx: SideBySideContext,
    path: Seq<char>,
    line: u32,
    side: LineSide,
    n: int,
    s: Sheet,
)
    ensures
        first_threads_shown(ctx, path, line, side, n, s).input == s.input,
    decreases n,
{
    if n > 0 {
        lemma_threads_input(ctx, path, line, side, n - 1, s);
    }
}

proof fn lemma_notes_input(
    ctx: SideBySideContext,
    file: DiffFile,
    file_idx: int,
    lineno: Option<u32>,
    side: LineSide,
    s: Sheet,
)
    ensures
        notes_shown(ctx, file, file_idx, lineno, side, s).input is Some <==> (s.input is Some
            || written_below(ctx, file, file_idx, lineno, side)),
{
    if let Some(line) = lineno {
        let comments = comments_at(file.line_comments@, line);
        lemma_comments_input(ctx, comments, line, side, file_idx, comments.len() as int, s);
        lemma_threads_input(
            ctx,
            file.path@,
            line,
            side,
            ctx.remote_threads@.len() as int,
            comments_shown(ctx, file.line_comments@, line, side, file_idx, s),
        );
    }
}

proof fn lemma_pairs_input(
    ctx: SideBySideContext,
    file: DiffFile,
    file_idx: int,
    lines: Seq<DiffLine>,
    pairs: Seq<BlockRow>,
    n: int,
    s: Sheet,
)
    requires
        0 <= n <= pairs.len(),
    ensures
        first_pairs_shown(ctx, file, file_idx, lines, pairs, n, s).input is Some <==> (
        s.input is Some || exists|i: int|
            0 <= i < n && #[trigger] written_in_pair(ctx, file, file_idx, lines, pairs, i)),
    decreases n,
{
    if n > 0 {
        lemma_pairs_input(ctx, file, file_idx, lines, pairs, n - 1, s);
        let t = first_pairs_shown(ctx, file, file_idx, lines, pairs, n - 1, s);
        let deletion = line_at(lines, pairs[n - 1].0);
        let addition = line_at(lines, pairs[n - 1].1);
        let u = t.with_row(culled(ctx, t.len(), change_row(ctx, deletion, addition, t.len())));
        lemma_notes_input(ctx, file, file_idx, old_lineno(deletion), LineSide::Old, u);
        lemma_notes_input(
            ctx,
            file,
            file_idx,
            new_lineno(addition),
            LineSide::New,
            notes_shown(ctx, file, file_idx, old_lineno(deletion), LineSide::Old, u),
        );
        assert(first_pairs_shown(ctx, file, file_idx, lines, pairs, n, s).input is Some <==> (
        t.input is Some || written_in_pair(ctx, file, file_idx, lines, pairs, n - 1)));
    }
}

proof fn lemma_segments_input(
    ctx: SideBySideContext,
    file: DiffFile,
    file_idx: int,
    hunk: DiffHunk,
    n: int,
    s: Sheet,
)
    requires
        0 <= n <= hunk.segments@.len(),
    ensures
        first_segments_shown(ctx, file, file_idx, hunk, n, s).input is Some <==> (s.input is Some
            || exists|i: int|
            0 <= i < n && #[trigger] written_in_segment(ctx, file, file_idx, hunk, i)),
    decreases n,
{
    if n > 0 {
        lemma_segments_input(ctx, file, file_idx, hunk, n - 1, s);
        let t = first_segments_shown(ctx, file, file_idx, hunk, n - 1, s);
        match hunk.segments@[n - 1] {
            HunkSegment::Context(at) => {
                let dl = hunk.lines@[at as int];
                let prose = culled(ctx, t.len(), message_row(ctx, dl, t.len()));
                let code = culled(ctx, t.len(), context_row(ctx, dl, t.len()));
                lemma_notes_input(
                    ctx,
                    file,
                    file_idx,
                    dl.new_lineno,
                    LineSide::New,
                    t.with_row(prose),
                );
                lemma_notes_input(
                    ctx,
                    file,
                    file_idx,
                    dl.new_lineno,
                    LineSide::New,
                    t.with_row(code),
                );
            },
            HunkSegment::ChangeBlock(block) => {
                lemma_pairs_input(
                    ctx,
                    file,
                    file_idx,
                    hunk.lines@,
                    block.paired(),
                    block.row_count(),
                    t,
                );
            },
        }
        assert(first_segments_shown(ctx, file, file_idx, hunk, n, s).input is Some <==> (
        t.input is Some || written_in_segment(ctx, file, file_idx, hunk, n - 1)));
    }
}

proof fn lemma_hunks_input(
    ctx: SideBySideContext,
    file: DiffFile,
    file_idx: int,
    n: int,
    s: Sheet,
)
    requires
        0 <= n <= file.hunks@.len(),
    ensures
        first_hunks_shown(ctx, file, file_idx, n, s).input is Some <==> (s.input is Some
            || exists|i: int| 0 <= i < n && #[trigger] written_in_hunk(ctx, file, file_idx, i)),
    decreases n,
{
    if n > 0 {
        lemma_hunks_input(ctx, file, file_idx, n - 1, s);
        let t = first_hunks_shown(ctx, file, file_idx, n - 1, s);
        let hunk = file.hunks@[n - 1];
        let u = gap_shown(ctx, hunk, n - 1 == 0, t);
        let v = u.with_row(hunk_header_row(ctx, hunk, u.len()));
        lemma_segments_input(ctx, file, file_idx, hunk, hunk.segments@.len() as int, v);
        assert(hunk_shown(ctx, file, file_idx, n - 1, t).input is Some <==> (t.input is Some
            || written_in_hunk(ctx, file, file_idx, n - 1)));
    }
}

proof fn lemma_file_comments_input(
    ctx: SideBySideContext,
    comments: Seq<Comment>,
    writing: bool,
    n: int,
    s: Sheet,
)
    requires
        0 <= n <= comments.len(),
    ensures
        first_file_comments_shown(ctx, comments, writing, n, s).input is Some <==> (
        s.input is Some || exists|i: int|
            0 <= i < n && #[trigger] edited_in_file(ctx, comments, writing, i)),
    decreases n,
{
    if n > 0 {
        lemma_file_comments_input(ctx, comments, writing, n - 1, s);
        assert(first_file_comments_shown(ctx, comments, writing, n, s).input is Some <==> (
        first_file_comments_shown(ctx, comments, writing, n - 1, s).input is Some
            || edited_in_file(ctx, comments, writing, n - 1)));
    }
}

proof fn lemma_files_input(ctx: SideBySideContext, files: Seq<DiffFile>, n: int, s: Sheet)
    requires
        0 <= n <= files.len(),
    ensures
        first_files_shown(ctx, files, n, s).input is Some <==> (s.input is Some || exists|i: int|
            0 <= i < n && #[trigger] written_in_file(ctx, files, i)),
    decreases n,
{
    if n > 0 {
        lemma_files_input(ctx, files, n - 1, s);
        let t = first_files_shown(ctx, files, n - 1, s);
        lemma_file_input(ctx, files, n - 1, t);
    }
}

proof fn lemma_file_input(ctx: SideBySideContext, files: Seq<DiffFile>, i: int, s: Sheet)
    requires
        0 <= i < files.len(),
    ensures
        file_shown(ctx, files[i], i, s).input is Some <==> (s.input is Some || written_in_file(
            ctx,
            files,
            i,
        )),
{
    let file = files[i];
    let writing = ctx.writes_file_comment(i);
    let a = if ctx.is_single_file_view {
        s
    } else {
        s.with_row(file_header_row(ctx, file, s.len()))
    };
    let b = if file.is_reviewed && ctx.is_single_file_view {
        a.with_row(banner_row(ctx, a.len()))
    } else {
        a
    };
    lemma_file_comments_input(
        ctx,
        file.file_comments@,
        writing,
        file.file_comments@.len() as int,
        b,
    );
    let c = file_comments_shown(ctx, file, i, b);
    lemma_hunks_input(ctx, file, i, file.hunks@.len() as int, c);
    let d = hunks_shown(ctx, file, i, c);
    assert(end_gap_shown(ctx, file, d).input == d.input);
}

proof fn lemma_summaries_input(
    ctx: SideBySideContext,
    summaries: Seq<ReviewSummary>,
    n: int,
    s: Sheet,
)
    ensures
        first_summaries_shown(ctx, summaries, n, s).input == s.input,
    decreases n,
{
    if n > 0 {
        lemma_summaries_input(ctx, summaries, n - 1, s);
    }
}

proof fn lemma_review_comments_input(
    ctx: SideBySideContext,
    comments: Seq<Comment>,
    n: int,
    s: Sheet,
)
    requires
        0 <= n <= comments.len(),
    ensures
        first_review_comments_shown(ctx, comments, n, s).input is Some <==> (s.input is Some
            || exists|i: int| 0 <= i < n && #[trigger] edited_in_review(ctx, comments, i)),
    decreases n,
{
    if n > 0 {
        lemma_review_comments_input(ctx, comments, n - 1, s);
        assert(first_review_comments_shown(ctx, comments, n, s).input is Some <==> (
        first_review_comments_shown(ctx, comments, n - 1, s).input is Some || edited_in_review(
            ctx,
            comments,
            n - 1,
        )));
    }
}

proof fn lemma_general_threads_input(ctx: SideBySideContext, n: int, s: Sheet)
    ensures
        first_general_threads_shown(ctx, n, s).input == s.input,
    decreases n,
{
    if n > 0 {
        lemma_general_threads_input(ctx, n - 1, s);
    }
}

/// A document records an input box exactly where it holds one: where the
/// comment that is being edited, or the place of a new one, is part of it. What
/// a frame leaves behind of the box follows the record.
pub proof fn lemma_input_recorded(ctx: SideBySideContext, doc: ReviewDocument)
    ensures
        document_sheet(ctx, doc).input is Some <==> written_in_document(ctx, doc),
        annotation_offset(document_sheet(ctx, doc).input) is Some <==> written_in_document(
            ctx,
            doc,
        ),
{
    let a = Sheet::empty().with_rows(finished_rows(doc.pr_info@));
    let b = if doc.shows_review_comments_header {
        a.with_row(review_header_row(ctx, a.len()))
    } else {
        a
    };
    let n = doc.review_summaries@.len() as int;
    lemma_summaries_input(ctx, doc.review_summaries@, n, b);
    let c = first_summaries_shown(ctx, doc.review_summaries@, n, b);
    let m = doc.review_comments@.len() as int;
    lemma_review_comments_input(ctx, doc.review_comments@, m, c);
    let d = first_review_comments_shown(ctx, doc.review_comments@, m, c);
    lemma_general_threads_input(ctx, ctx.remote_threads@.len() as int, d);
    let e = review_shown(ctx, doc, Sheet::empty());
    assert(e.input is Some <==> written_in_review(ctx, doc));
    let f = e.with_rows(finished_rows(doc.issue_comments@));
    lemma_files_input(ctx, doc.files@, doc.files@.len() as int, f);
}

} // verus!
