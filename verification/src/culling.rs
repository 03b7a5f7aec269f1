//! The viewport only leaves rows blank, and hidden threads leave no trace.

use crate::comments::{
    comments_at, comments_shown, first_comments_shown, first_threads_shown, input_box_len,
};
use crate::context::SideBySideContext;
use crate::gap_rows::{
    end_gap_shown, expanded_rows, gap_rows_shown, gap_shown, remaining_lines, stub_rows,
    stubs_above, stubs_at_end,
};
use crate::hunk_rows::{
    culled, first_pairs_shown, first_segments_shown, message_row, new_lineno, notes_shown,
    old_lineno,
};
use crate::line_rows::{change_row, context_row, expanded_row, line_at};
use crate::model::{
    BlockRow, Comment, DiffFile, DiffHunk, DiffLine, ExpandedLines, HunkSegment, LineSide,
    RemoteReviewThread,
};
use crate::rows::{blank_rows, GapStub, RowView, Sheet};
use crate::side_by_side::{
    banner_row, boxed_comment_shown, document_sheet, empty_label_row, file_body_shown,
    file_comments_shown, file_header_row, finished_rows, first_file_comments_shown,
    first_files_shown, first_general_threads_shown, first_hunks_shown,
    first_review_comments_shown, first_summaries_shown, general_threads_shown, hunk_header_row,
    hunks_shown, review_header_row, review_shown, ReviewDocument, ReviewSummary,
};
use crate::style::Line;
use vstd::prelude::*;

verus! {

/// The threads that can be shown at all.
spec fn open_threads(ctx: SideBySideContext) -> Seq<RemoteReviewThread> {
    if ctx.hides_remote_comments {
        Seq::empty()
    } else {
        ctx.remote_threads@
    }
}

/// Whether two contexts differ at most in their viewport and in threads that
/// are hidden.
spec fn alike(a: SideBySideContext, b: SideBySideContext) -> bool {
    &&& b == (SideBySideContext {
        visible_start: b.visible_start,
        visible_end: b.visible_end,
        hides_remote_comments: b.hides_remote_comments,
        remote_threads: b.remote_threads,
        ..a
    })
    &&& open_threads(a) == open_threads(b)
}

/// Whether two contexts have the same viewport.
spec fn same_viewport(a: SideBySideContext, b: SideBySideContext) -> bool {
    a.visible_start == b.visible_start && a.visible_end == b.visible_end
}

/// Whether a row is treated the same under both viewports.
spec fn shared(a: SideBySideContext, b: SideBySideContext, row: int) -> bool {
    same_viewport(a, b) || (a.visible(row) && b.visible(row))
}

/// Whether two sheets differ at most in rows outside one of the viewports.
spec fn agree(a: SideBySideContext, b: SideBySideContext, s: Sheet, t: Sheet) -> bool {
    &&& s.len() == t.len()
    &&& s.bars == t.bars
    &&& s.input == t.input
    &&& forall|i: int|
        0 <= i < s.len() && shared(a, b, i) ==> #[trigger] s.rows[i] == t.rows[i]
}

/// Whether a comment's box has as many rows as the comment has lines.
pub open spec fn sized(comment: Comment) -> bool {
    comment.rows == comment.lines@.len()
}

/// Whether all comments are sized.
pub open spec fn all_sized(comments: Seq<Comment>) -> bool {
    forall|i: int| 0 <= i < comments.len() ==> sized(#[trigger] comments[i])
}

/// Whether all comments of a file are sized.
pub open spec fn file_sized(file: DiffFile) -> bool {
    &&& all_sized(file.file_comments@)
    &&& forall|line: u32|
        file.line_comments@.contains_key(line) ==> all_sized(
            #[trigger] comments_at(file.line_comments@, line),
        )
}

/// Whether all comments of a document are sized.
pub open spec fn document_sized(doc: ReviewDocument) -> bool {
    &&& all_sized(doc.review_comments@)
    &&& forall|i: int| 0 <= i < doc.files@.len() ==> file_sized(#[trigger] doc.files@[i])
}

proof fn lemma_agree_rows(
    a: SideBySideContext,
    b: SideBySideContext,
    s: Sheet,
    t: Sheet,
    more: Seq<RowView>,
    others: Seq<RowView>,
)
    requires
        agree(a, b, s, t),
        more.len() == others.len(),
        forall|k: int|
            0 <= k < more.len() && shared(a, b, s.len() + k) ==> #[trigger] more[k] == others[k],
    ensures
        agree(a, b, s.with_rows(more), t.with_rows(others)),
{
    let u = s.with_rows(more);
    let v = t.with_rows(others);
    assert forall|i: int| 0 <= i < u.len() && shared(a, b, i) implies #[trigger] u.rows[i]
        == v.rows[i] by {
        if i < s.len() {
            assert(u.rows[i] == s.rows[i]);
        } else {
            assert(shared(a, b, s.len() + (i - s.len())));
            assert(u.rows[i] == more[i - s.len()]);
        }
    }
}

proof fn lemma_agree_row(
    a: SideBySideContext,
    b: SideBySideContext,
    s: Sheet,
    t: Sheet,
    row: RowView,
    other: RowView,
)
    requires
        agree(a, b, s, t),
        shared(a, b, s.len()) ==> row == other,
    ensures
        agree(a, b, s.with_row(row), t.with_row(other)),
{
    lemma_agree_rows(a, b, s, t, seq![row], seq![other]);
    assert(s.with_row(row) =~= s.with_rows(seq![row]));
    assert(t.with_row(other) =~= t.with_rows(seq![other]));
}

proof fn lemma_agree_lines(
    a: SideBySideContext,
    b: SideBySideContext,
    s: Sheet,
    t: Sheet,
    lines: Seq<Line>,
)
    requires
        alike(a, b),
        agree(a, b, s, t),
    ensures
        agree(
            a,
            b,
            s.with_rows(a.indicated_rows(lines, s.len())),
            t.with_rows(b.indicated_rows(lines, t.len())),
        ),
{
    lemma_agree_rows(
        a,
        b,
        s,
        t,
        a.indicated_rows(lines, s.len()),
        b.indicated_rows(lines, t.len()),
    );
}

proof fn lemma_agree_input(
    a: SideBySideContext,
    b: SideBySideContext,
    s: Sheet,
    t: Sheet,
    annotation_len: int,
    replaced: usize,
)
    requires
        alike(a, b),
        agree(a, b, s, t),
    ensures
        agree(
            a,
            b,
            a.input_shown(s, annotation_len, replaced),
            b.input_shown(t, annotation_len, replaced),
        ),
{
    lemma_agree_lines(a, b, s, t, a.comment_input.lines@);
}

proof fn lemma_agree_box(
    a: SideBySideContext,
    b: SideBySideContext,
    s: Sheet,
    t: Sheet,
    comment: Comment,
)
    requires
        alike(a, b),
        agree(a, b, s, t),
        same_viewport(a, b) || sized(comment),
    ensures
        agree(a, b, a.box_shown(s, comment), b.box_shown(t, comment)),
{
    let top = s.len();
    let rows = comment.rows as int;
    let more = if a.shows_box(top, rows) {
        a.indicated_rows(comment.lines@, top)
    } else {
        blank_rows(rows)
    };
    let others = if b.shows_box(top, rows) {
        b.indicated_rows(comment.lines@, top)
    } else {
        blank_rows(rows)
    };
    assert forall|k: int|
        0 <= k < more.len() && shared(a, b, top + k) implies #[trigger] more[k] == others[k] by {
        if !same_viewport(a, b) {
            assert(a.shows_box(top, rows));
            assert(b.shows_box(top, rows));
        }
    }
    lemma_agree_rows(a, b, s, t, more, others);
}

proof fn lemma_agree_threads(
    a: SideBySideContext,
    b: SideBySideContext,
    path: Seq<char>,
    line: u32,
    side: LineSide,
    n: int,
    s: Sheet,
    t: Sheet,
)
    requires
        alike(a, b),
        agree(a, b, s, t),
        a.remote_threads@ == b.remote_threads@,
    ensures
        agree(
            a,
            b,
            first_threads_shown(a, path, line, side, n, s),
            first_threads_shown(b, path, line, side, n, t),
        ),
    decreases n,
{
    if n > 0 {
        lemma_agree_threads(a, b, path, line, side, n - 1, s, t);
        lemma_agree_lines(
            a,
            b,
            first_threads_shown(a, path, line, side, n - 1, s),
            first_threads_shown(b, path, line, side, n - 1, t),
            a.remote_threads@[n - 1].lines@,
        );
    }
}

proof fn lemma_agree_comments(
    a: SideBySideContext,
    b: SideBySideContext,
    comments: Seq<Comment>,
    line: u32,
    side: LineSide,
    file_idx: int,
    n: int,
    s: Sheet,
    t: Sheet,
)
    requires
        alike(a, b),
        agree(a, b, s, t),
        n <= comments.len(),
        same_viewport(a, b) || all_sized(comments),
    ensures
        agree(
            a,
            b,
            first_comments_shown(a, comments, line, side, file_idx, n, s),
            first_comments_shown(b, comments, line, side, file_idx, n, t),
        ),
    decreases n,
{
    if n > 0 {
        lemma_agree_comments(a, b, comments, line, side, file_idx, n - 1, s, t);
        let u = first_comments_shown(a, comments, line, side, file_idx, n - 1, s);
        let v = first_comments_shown(b, comments, line, side, file_idx, n - 1, t);
        let comment = comments[n - 1];
        lemma_agree_box(a, b, u, v, comment);
        lemma_agree_input(a, b, u, v, input_box_len(a), comment.rows);
    }
}

proof fn lemma_agree_notes(
    a: SideBySideContext,
    b: SideBySideContext,
    file: DiffFile,
    file_idx: int,
    lineno: Option<u32>,
    side: LineSide,
    s: Sheet,
    t: Sheet,
)
    requires
        alike(a, b),
        agree(a, b, s, t),
        same_viewport(a, b) || file_sized(file),
    ensures
        agree(
            a,
            b,
            notes_shown(a, file, file_idx, lineno, side, s),
            notes_shown(b, file, file_idx, lineno, side, t),
        ),
{
    if let Some(line) = lineno {
        let comments = comments_at(file.line_comments@, line);
        let n = comments.len() as int;
        assert(same_viewport(a, b) || all_sized(comments));
        lemma_agree_comments(a, b, comments, line, side, file_idx, n, s, t);
        let u = first_comments_shown(a, comments, line, side, file_idx, n, s);
        let v = first_comments_shown(b, comments, line, side, file_idx, n, t);
        lemma_agree_input(a, b, u, v, input_box_len(a), 0);
        let w = comments_shown(a, file.line_comments@, line, side, file_idx, s);
        let x = comments_shown(b, file.line_comments@, line, side, file_idx, t);
        assert(agree(a, b, w, x));
        if !a.hides_remote_comments && !b.hides_remote_comments {
            lemma_agree_threads(
                a,
                b,
                file.path@,
                line,
                side,
                a.remote_threads@.len() as int,
                w,
                x,
            );
        }
    }
}

proof fn lemma_agree_pairs(
    a: SideBySideContext,
    b: SideBySideContext,
    file: DiffFile,
    file_idx: int,
    lines: Seq<DiffLine>,
    pairs: Seq<BlockRow>,
    n: int,
    s: Sheet,
    t: Sheet,
)
    requires
        alike(a, b),
        agree(a, b, s, t),
        same_viewport(a, b) || file_sized(file),
    ensures
        agree(
            a,
            b,
            first_pairs_shown(a, file, file_idx, lines, pairs, n, s),
            first_pairs_shown(b, file, file_idx, lines, pairs, n, t),
        ),
    decreases n,
{
    if n > 0 {
        lemma_agree_pairs(a, b, file, file_idx, lines, pairs, n - 1, s, t);
        let u = first_pairs_shown(a, file, file_idx, lines, pairs, n - 1, s);
        let v = first_pairs_shown(b, file, file_idx, lines, pairs, n - 1, t);
        let deletion = line_at(lines, pairs[n - 1].0);
        let addition = line_at(lines, pairs[n - 1].1);
        let row = culled(a, u.len(), change_row(a, deletion, addition, u.len()));
        let other = culled(b, v.len(), change_row(b, deletion, addition, v.len()));
        assert(change_row(a, deletion, addition, u.len()) == change_row(
            b,
            deletion,
            addition,
            u.len(),
        ));
        lemma_agree_row(a, b, u, v, row, other);
        let lineno = old_lineno(deletion);
        lemma_agree_notes(
            a,
            b,
            file,
            file_idx,
            lineno,
            LineSide::Old,
            u.with_row(row),
            v.with_row(other),
        );
        lemma_agree_notes(
            a,
            b,
            file,
            file_idx,
            new_lineno(addition),
            LineSide::New,
            notes_shown(a, file, file_idx, lineno, LineSide::Old, u.with_row(row)),
            notes_shown(b, file, file_idx, lineno, LineSide::Old, v.with_row(other)),
        );
    }
}

proof fn lemma_agree_segments(
    a: SideBySideContext,
    b: SideBySideContext,
    file: DiffFile,
    file_idx: int,
    hunk: DiffHunk,
    n: int,
    s: Sheet,
    t: Sheet,
)
    requires
        alike(a, b),
        agree(a, b, s, t),
        same_viewport(a, b) || file_sized(file),
    ensures
        agree(
            a,
            b,
            first_segments_shown(a, file, file_idx, hunk, n, s),
            first_segments_shown(b, file, file_idx, hunk, n, t),
        ),
    decreases n,
{
    if n > 0 {
        lemma_agree_segments(a, b, file, file_idx, hunk, n - 1, s, t);
        let u = first_segments_shown(a, file, file_idx, hunk, n - 1, s);
        let v = first_segments_shown(b, file, file_idx, hunk, n - 1, t);
        match hunk.segments@[n - 1] {
            HunkSegment::Context(at) => {
                let dl = hunk.lines@[at as int];
                let at = u.len();
                let (row, other) = if file.is_commit_message {
                    assert(message_row(a, dl, at) == message_row(b, dl, at));
                    (culled(a, at, message_row(a, dl, at)), culled(b, at, message_row(b, dl, at)))
                } else {
                    assert(context_row(a, dl, at) == context_row(b, dl, at));
                    (culled(a, at, context_row(a, dl, at)), culled(b, at, context_row(b, dl, at)))
                };
                lemma_agree_row(a, b, u, v, row, other);
                lemma_agree_notes(
                    a,
                    b,
                    file,
                    file_idx,
                    dl.new_lineno,
                    LineSide::New,
                    u.with_row(row),
                    v.with_row(other),
                );
            },
            HunkSegment::ChangeBlock(block) => {
                lemma_agree_pairs(
                    a,
                    b,
                    file,
                    file_idx,
                    hunk.lines@,
                    block.paired(),
                    block.row_count(),
                    u,
                    v,
                );
            },
        }
    }
}

proof fn lemma_agree_gap(
    a: SideBySideContext,
    b: SideBySideContext,
    expanded: ExpandedLines,
    stubs: Seq<GapStub>,
    remaining: usize,
    cull: bool,
    s: Sheet,
    t: Sheet,
)
    requires
        alike(a, b),
        agree(a, b, s, t),
    ensures
        agree(
            a,
            b,
            gap_rows_shown(a, expanded, stubs, remaining, cull, s),
            gap_rows_shown(b, expanded, stubs, remaining, cull, t),
        ),
{
    assert forall|dl: DiffLine, at: int| #[trigger]
        expanded_row(a, dl, at) == expanded_row(b, dl, at) by {}
    let more = expanded_rows(a, expanded.top@, cull, s.len());
    let others = expanded_rows(b, expanded.top@, cull, s.len());
    lemma_agree_rows(a, b, s, t, more, others);
    let s1 = s.with_rows(more);
    let t1 = t.with_rows(others);
    let more = stub_rows(a, stubs, remaining, s1.len());
    let others = stub_rows(b, stubs, remaining, s1.len());
    lemma_agree_rows(a, b, s1, t1, more, others);
    let s2 = s1.with_rows(more);
    let t2 = t1.with_rows(others);
    let more = expanded_rows(a, expanded.bottom@, cull, s2.len());
    let others = expanded_rows(b, expanded.bottom@, cull, s2.len());
    lemma_agree_rows(a, b, s2, t2, more, others);
}

proof fn lemma_agree_hunks(
    a: SideBySideContext,
    b: SideBySideContext,
    file: DiffFile,
    file_idx: int,
    n: int,
    s: Sheet,
    t: Sheet,
)
    requires
        alike(a, b),
        agree(a, b, s, t),
        same_viewport(a, b) || file_sized(file),
    ensures
        agree(
            a,
            b,
            first_hunks_shown(a, file, file_idx, n, s),
            first_hunks_shown(b, file, file_idx, n, t),
        ),
    decreases n,
{
    if n > 0 {
        lemma_agree_hunks(a, b, file, file_idx, n - 1, s, t);
        let u = first_hunks_shown(a, file, file_idx, n - 1, s);
        let v = first_hunks_shown(b, file, file_idx, n - 1, t);
        let hunk = file.hunks@[n - 1];
        let remaining = remaining_lines(hunk.gap_before as int, hunk.expanded);
        lemma_agree_gap(
            a,
            b,
            hunk.expanded,
            stubs_above(remaining, n == 1, a.gap_expand_batch as int),
            remaining as usize,
            true,
            u,
            v,
        );
        let u = gap_shown(a, hunk, n == 1, u);
        let v = gap_shown(b, hunk, n == 1, v);
        let row = hunk_header_row(a, hunk, u.len());
        let other = hunk_header_row(b, hunk, v.len());
        lemma_agree_row(a, b, u, v, row, other);
        lemma_agree_segments(
            a,
            b,
            file,
            file_idx,
            hunk,
            hunk.segments@.len() as int,
            u.with_row(row),
            v.with_row(other),
        );
    }
}

proof fn lemma_agree_boxed(
    a: SideBySideContext,
    b: SideBySideContext,
    comment: Comment,
    writing: bool,
    s: Sheet,
    t: Sheet,
)
    requires
        alike(a, b),
        agree(a, b, s, t),
        same_viewport(a, b) || sized(comment),
    ensures
        agree(
            a,
            b,
            boxed_comment_shown(a, comment, writing, s),
            boxed_comment_shown(b, comment, writing, t),
        ),
{
    lemma_agree_input(a, b, s, t, a.comment_input.lines@.len() as int, comment.rows);
    lemma_agree_box(a, b, s, t, comment);
}

proof fn lemma_agree_file_comments(
    a: SideBySideContext,
    b: SideBySideContext,
    comments: Seq<Comment>,
    writing: bool,
    n: int,
    s: Sheet,
    t: Sheet,
)
    requires
        alike(a, b),
        agree(a, b, s, t),
        n <= comments.len(),
        same_viewport(a, b) || all_sized(comments),
    ensures
        agree(
            a,
            b,
            first_file_comments_shown(a, comments, writing, n, s),
            first_file_comments_shown(b, comments, writing, n, t),
        ),
    decreases n,
{
    if n > 0 {
        lemma_agree_file_comments(a, b, comments, writing, n - 1, s, t);
        lemma_agree_boxed(
            a,
            b,
            comments[n - 1],
            writing,
            first_file_comments_shown(a, comments, writing, n - 1, s),
            first_file_comments_shown(b, comments, writing, n - 1, t),
        );
    }
}

proof fn lemma_agree_file_body(
    a: SideBySideContext,
    b: SideBySideContext,
    file: DiffFile,
    file_idx: int,
    s: Sheet,
    t: Sheet,
)
    requires
        alike(a, b),
        agree(a, b, s, t),
        same_viewport(a, b) || file_sized(file),
    ensures
        agree(
            a,
            b,
            file_body_shown(a, file, file_idx, s),
            file_body_shown(b, file, file_idx, t),
        ),
{
    let banner = banner_row(a, s.len());
    lemma_agree_row(a, b, s, t, banner, banner_row(b, t.len()));
    let (s1, t1) = if file.is_reviewed && a.is_single_file_view {
        (s.with_row(banner), t.with_row(banner_row(b, t.len())))
    } else {
        (s, t)
    };
    let writing = a.writes_file_comment(file_idx);
    let n = file.file_comments@.len() as int;
    lemma_agree_file_comments(a, b, file.file_comments@, writing, n, s1, t1);
    lemma_agree_input(
        a,
        b,
        first_file_comments_shown(a, file.file_comments@, writing, n, s1),
        first_file_comments_shown(b, file.file_comments@, writing, n, t1),
        a.comment_input.lines@.len() as int,
        0,
    );
    let s2 = file_comments_shown(a, file, file_idx, s1);
    let t2 = file_comments_shown(b, file, file_idx, t1);
    lemma_agree_row(
        a,
        b,
        s2,
        t2,
        empty_label_row(a, file, s2.len()),
        empty_label_row(b, file, t2.len()),
    );
    lemma_agree_hunks(a, b, file, file_idx, file.hunks@.len() as int, s2, t2);
    let s3 = hunks_shown(a, file, file_idx, s2);
    let t3 = hunks_shown(b, file, file_idx, t2);
    let remaining = remaining_lines(
        file.line_count->0 - file.end_start() + 1,
        file.expanded_end,
    );
    lemma_agree_gap(
        a,
        b,
        file.expanded_end,
        stubs_at_end(remaining, a.gap_expand_batch as int),
        remaining as usize,
        false,
        s3,
        t3,
    );
    let s4 = end_gap_shown(a, file, s3);
    let t4 = end_gap_shown(b, file, t3);
    lemma_agree_row(
        a,
        b,
        s4,
        t4,
        RowView::Full(a.indicator(s4.len())),
        RowView::Full(b.indicator(t4.len())),
    );
}

proof fn lemma_agree_files(
    a: SideBySideContext,
    b: SideBySideContext,
    files: Seq<DiffFile>,
    n: int,
    s: Sheet,
    t: Sheet,
)
    requires
        alike(a, b),
        agree(a, b, s, t),
        n <= files.len(),
        same_viewport(a, b) || forall|i: int|
            0 <= i < files.len() ==> file_sized(#[trigger] files[i]),
    ensures
        agree(a, b, first_files_shown(a, files, n, s), first_files_shown(b, files, n, t)),
    decreases n,
{
    if n > 0 {
        lemma_agree_files(a, b, files, n - 1, s, t);
        let u = first_files_shown(a, files, n - 1, s);
        let v = first_files_shown(b, files, n - 1, t);
        let file = files[n - 1];
        let row = file_header_row(a, file, u.len());
        let other = file_header_row(b, file, v.len());
        lemma_agree_row(a, b, u, v, row, other);
        lemma_agree_file_body(a, b, file, n - 1, u, v);
        lemma_agree_file_body(a, b, file, n - 1, u.with_row(row), v.with_row(other));
    }
}

proof fn lemma_agree_summaries(
    a: SideBySideContext,
    b: SideBySideContext,
    summaries: Seq<ReviewSummary>,
    n: int,
    s: Sheet,
    t: Sheet,
)
    requires
        alike(a, b),
        agree(a, b, s, t),
    ensures
        agree(
            a,
            b,
            first_summaries_shown(a, summaries, n, s),
            first_summaries_shown(b, summaries, n, t),
        ),
    decreases n,
{
    if n > 0 {
        lemma_agree_summaries(a, b, summaries, n - 1, s, t);
        lemma_agree_lines(
            a,
            b,
            first_summaries_shown(a, summaries, n - 1, s),
            first_summaries_shown(b, summaries, n - 1, t),
            summaries[n - 1].lines@,
        );
    }
}

proof fn lemma_agree_review_comments(
    a: SideBySideContext,
    b: SideBySideContext,
    comments: Seq<Comment>,
    n: int,
    s: Sheet,
    t: Sheet,
)
    requires
        alike(a, b),
        agree(a, b, s, t),
        n <= comments.len(),
        same_viewport(a, b) || all_sized(comments),
    ensures
        agree(
            a,
            b,
            first_review_comments_shown(a, comments, n, s),
            first_review_comments_shown(b, comments, n, t),
        ),
    decreases n,
{
    if n > 0 {
        lemma_agree_review_comments(a, b, comments, n - 1, s, t);
        lemma_agree_boxed(
            a,
            b,
            comments[n - 1],
            a.writes_review_comment(),
            first_review_comments_shown(a, comments, n - 1, s),
            first_review_comments_shown(b, comments, n - 1, t),
        );
    }
}

proof fn lemma_agree_general_threads(
    a: SideBySideContext,
    b: SideBySideContext,
    n: int,
    s: Sheet,
    t: Sheet,
)
    requires
        alike(a, b),
        agree(a, b, s, t),
        a.remote_threads@ == b.remote_threads@,
    ensures
        agree(
            a,
            b,
            first_general_threads_shown(a, n, s),
            first_general_threads_shown(b, n, t),
        ),
    decreases n,
{
    if n > 0 {
        lemma_agree_general_threads(a, b, n - 1, s, t);
        lemma_agree_lines(
            a,
            b,
            first_general_threads_shown(a, n - 1, s),
            first_general_threads_shown(b, n - 1, t),
            a.remote_threads@[n - 1].lines@,
        );
    }
}

proof fn lemma_agree_document(a: SideBySideContext, b: SideBySideContext, doc: ReviewDocument)
    requires
        alike(a, b),
        same_viewport(a, b) || document_sized(doc),
    ensures
        agree(a, b, document_sheet(a, doc), document_sheet(b, doc)),
{
    let info = finished_rows(doc.pr_info@);
    let s0 = Sheet::empty();
    lemma_agree_rows(a, b, s0, s0, info, info);
    let s1 = s0.with_rows(info);
    let row = review_header_row(a, s1.len());
    let other = review_header_row(b, s1.len());
    lemma_agree_row(a, b, s1, s1, row, other);
    let (s2, t2) = if doc.shows_review_comments_header {
        (s1.with_row(row), s1.with_row(other))
    } else {
        (s1, s1)
    };
    let n = doc.review_summaries@.len() as int;
    lemma_agree_summaries(a, b, doc.review_summaries@, n, s2, t2);
    let s3 = first_summaries_shown(a, doc.review_summaries@, n, s2);
    let t3 = first_summaries_shown(b, doc.review_summaries@, n, t2);
    let n = doc.review_comments@.len() as int;
    lemma_agree_review_comments(a, b, doc.review_comments@, n, s3, t3);
    let s4 = first_review_comments_shown(a, doc.review_comments@, n, s3);
    let t4 = first_review_comments_shown(b, doc.review_comments@, n, t3);
    if !a.hides_remote_comments && !b.hides_remote_comments {
        lemma_agree_general_threads(a, b, a.remote_threads@.len() as int, s4, t4);
    }
    let s5 = general_threads_shown(a, s4);
    let t5 = general_threads_shown(b, t4);
    assert(agree(a, b, s5, t5));
    lemma_agree_input(a, b, s5, t5, a.comment_input.lines@.len() as int, 0);
    let s6 = review_shown(a, doc, s0);
    let t6 = review_shown(b, doc, s0);
    let issues = finished_rows(doc.issue_comments@);
    lemma_agree_rows(a, b, s6, t6, issues, issues);
    lemma_agree_files(
        a,
        b,
        doc.files@,
        doc.files@.len() as int,
        s6.with_rows(issues),
        t6.with_rows(issues),
    );
}

/// The viewport decides only which rows are built: whatever it is, the document
/// has the same number of rows, the same bars and the same input box, and a row
/// that lies in both viewports is the same.
pub proof fn lemma_viewport_only_leaves_blanks(
    a: SideBySideContext,
    b: SideBySideContext,
    doc: ReviewDocument,
)
    requires
        b == (SideBySideContext {
            visible_start: b.visible_start,
            visible_end: b.visible_end,
            ..a
        }),
        document_sized(doc),
    ensures
        document_sheet(a, doc).len() == document_sheet(b, doc).len(),
        document_sheet(a, doc).bars == document_sheet(b, doc).bars,
        document_sheet(a, doc).input == document_sheet(b, doc).input,
        forall|i: int|
            0 <= i < document_sheet(a, doc).len() && a.visible(i) && b.visible(i) ==> #[trigger]
            document_sheet(a, doc).rows[i] == document_sheet(b, doc).rows[i],
{
    lemma_agree_document(a, b, doc);
}

/// Where remote comments are hidden, the document is what it would be if there
/// were no remote threads at all.
pub proof fn lemma_hidden_threads_leave_no_trace(
    hiding: SideBySideContext,
    without: SideBySideContext,
    doc: ReviewDocument,
)
    requires
        hiding.hides_remote_comments,
        without.remote_threads@.len() == 0,
        without == (SideBySideContext {
            hides_remote_comments: without.hides_remote_comments,
            remote_threads: without.remote_threads,
            ..hiding
        }),
    ensures
        document_sheet(hiding, doc) == document_sheet(without, doc),
{
    assert(without.remote_threads@ =~= Seq::empty());
    lemma_agree_document(hiding, without, doc);
    assert(document_sheet(hiding, doc).rows =~= document_sheet(without, doc).rows);
}

} // verus!
