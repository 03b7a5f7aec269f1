//! What a review shows from top to bottom, said of its files, hunks and lines.

use crate::comments::{
    comments_at, comments_shown, first_comments_shown, line_comment_shown, threads_shown,
};
use crate::context::{InputMode, SideBySideContext};
use crate::gap_rows::{end_gap_shown, gap_shown};
use crate::gutter::{blanks, indicator_text};
use crate::hunk_rows::{
    block_shown, context_shown, culled, first_pairs_shown, first_segments_shown, message_row,
    message_shown, new_lineno, notes_shown, old_lineno, pair_shown, segment_shown,
};
use crate::line_rows::{change_row, context_row, line_at};
use crate::model::{
    BlockRow, ChangeBlock, Comment, DiffFile, DiffHunk, DiffLine, HunkSegment, LineRange, LineSide,
    RemoteCommentSide, RemoteReviewThread,
};
use crate::row_laws::{
    goes_on, hangs_at, holds_box, holds_input, indicated, lemma_box_stands_or_keeps_its_place,
    lemma_counts_are_not_negative, lemma_formatted_lines_keep_order,
    lemma_input_box_is_recorded_where_it_stands, lemma_threads_hang_below_their_line, stand_at,
    thread_rows_before, threads_before,
};
use crate::rows::{CommentBarAnchor, RowView, Sheet};
use crate::side_by_side::{
    banner_row, boxed_comment_shown, document_sheet, empty_label_row, file_body_shown,
    file_comments_shown, file_header_row, file_shown, finished_rows, first_file_comments_shown,
    first_files_shown, first_general_threads_shown, first_hunks_shown,
    first_review_comments_shown, first_summaries_shown, general_threads_shown, hunk_header_row,
    hunk_shown, hunks_shown, review_header_row, review_shown, ReviewDocument, ReviewSummary,
};
use crate::style::{runs, Line, Run, Style, DIM};
use vstd::prelude::*;

verus! {

/// Whether a row is in the viewport.
pub open spec fn on_screen(ctx: SideBySideContext, row: int) -> bool {
    ctx.visible_start <= row && row < ctx.visible_end
}

/// Whether `t` has one row more than `s`: the given one where it is on screen,
/// and one of nothing elsewhere.
pub open spec fn adds_line(ctx: SideBySideContext, row: RowView, s: Sheet, t: Sheet) -> bool {
    t == (Sheet {
        rows: s.rows.push(
            if on_screen(ctx, s.len()) {
                row
            } else {
                RowView::Full(Seq::empty())
            },
        ),
        ..s
    })
}

/// The indicator of a row: a triangle under the cursor, a space elsewhere, and
/// `tail` after it.
pub open spec fn marker(ctx: SideBySideContext, row: int, tail: Seq<char>) -> Run {
    (
        seq![
            if row == ctx.current_line_idx {
                '\u{25b6}'
            } else {
                ' '
            },
        ] + tail,
        ctx.theme.current_line_indicator_style,
    )
}

/// What is said about a line of a file on one side: its comments, then its
/// threads, and nothing where the side has no line.
pub open spec fn with_notes(
    ctx: SideBySideContext,
    file: DiffFile,
    file_idx: int,
    line: Option<u32>,
    side: LineSide,
    s: Sheet,
) -> Sheet {
    if line is Some {
        threads_shown(
            ctx,
            file.path@,
            line->0,
            side,
            comments_shown(ctx, file.line_comments@, line->0, side, file_idx, s),
        )
    } else {
        s
    }
}

/// A context line has one row, and below it stands what is said about the line
/// on the new side.
pub proof fn lemma_context_line_and_its_notes(
    ctx: SideBySideContext,
    file: DiffFile,
    file_idx: int,
    dl: DiffLine,
    s: Sheet,
) -> (t: Sheet)
    ensures
        adds_line(ctx, context_row(ctx, dl, s.len()), s, t),
        context_shown(ctx, file, file_idx, dl, s) == with_notes(
            ctx,
            file,
            file_idx,
            dl.new_lineno,
            LineSide::New,
            t,
        ),
{
    s.with_row(culled(ctx, s.len(), context_row(ctx, dl, s.len())))
}

/// A line of a commit message has one row over the full width: the indicator,
/// two spaces and its whole text in the theme's style for context. Below it
/// stands what is said about the line on the new side.
pub proof fn lemma_message_line_and_its_notes(
    ctx: SideBySideContext,
    file: DiffFile,
    file_idx: int,
    dl: DiffLine,
    s: Sheet,
) -> (t: Sheet)
    ensures
        adds_line(
            ctx,
            RowView::Full(
                seq![
                    marker(ctx, s.len(), Seq::empty()),
                    (seq![' ', ' '], ctx.theme.diff_context_style),
                    (dl.content@, ctx.theme.diff_context_style),
                ],
            ),
            s,
            t,
        ),
        message_shown(ctx, file, file_idx, dl, s) == with_notes(
            ctx,
            file,
            file_idx,
            dl.new_lineno,
            LineSide::New,
            t,
        ),
{
    let style = ctx.theme.diff_context_style;
    let row = message_row(ctx, dl, s.len());
    let mark = marker(ctx, s.len(), Seq::empty());
    assert(mark.0 =~= indicator_text(s.len(), ctx.current_line_idx as int));
    assert(seq![' ', ' '] =~= blanks(2));
    assert(row->Full_0 =~= seq![mark, (seq![' ', ' '], style), (dl.content@, style)]);
    s.with_row(culled(ctx, s.len(), row))
}

/// A row of a change block is one row, and below it stands first what is said
/// about its deletion on the old side and then what is said about its addition
/// on the new side.
pub proof fn lemma_changed_lines_and_their_notes(
    ctx: SideBySideContext,
    file: DiffFile,
    file_idx: int,
    deletion: Option<DiffLine>,
    addition: Option<DiffLine>,
    s: Sheet,
) -> (t: Sheet)
    ensures
        adds_line(ctx, change_row(ctx, deletion, addition, s.len()), s, t),
        pair_shown(ctx, file, file_idx, deletion, addition, s) == with_notes(
            ctx,
            file,
            file_idx,
            if addition is Some {
                addition->0.new_lineno
            } else {
                None
            },
            LineSide::New,
            with_notes(
                ctx,
                file,
                file_idx,
                if deletion is Some {
                    deletion->0.old_lineno
                } else {
                    None
                },
                LineSide::Old,
                t,
            ),
        ),
{
    let row = change_row(ctx, deletion, addition, s.len());
    s.with_row(culled(ctx, s.len(), row))
}

/// The line with the index at position `i` of a list of indices.
pub open spec fn nth_line(lines: Seq<DiffLine>, at: Seq<usize>, i: int) -> Option<DiffLine> {
    if i < at.len() {
        Some(lines[at[i] as int])
    } else {
        None
    }
}

/// A change block shows its lines top to bottom, on each row the next deletion
/// and the next addition as far as there are any, and ends when both have run
/// out.
pub proof fn lemma_block_shows_its_lines_in_order(
    ctx: SideBySideContext,
    file: DiffFile,
    file_idx: int,
    lines: Seq<DiffLine>,
    block: ChangeBlock,
    s: Sheet,
)
    ensures
        ({
            let after = |n: int|
                first_pairs_shown(ctx, file, file_idx, lines, block.paired(), n, s);
            let deletions = block.deletions@;
            let additions = block.additions@;
            &&& after(0) == s
            &&& forall|n: int|
                0 <= n < deletions.len() || 0 <= n < additions.len() ==> #[trigger] after(n + 1)
                    == pair_shown(
                    ctx,
                    file,
                    file_idx,
                    nth_line(lines, deletions, n),
                    nth_line(lines, additions, n),
                    after(n),
                )
            &&& block_shown(ctx, file, file_idx, lines, block, s) == after(
                vstd::math::max(deletions.len() as int, additions.len() as int),
            )
        }),
{
}

/// The segments of a hunk stand in order, each after all that is said about the
/// one before: a context line as such, or as prose in a commit message, and a
/// change block as such.
pub proof fn lemma_segments_stand_in_order(
    ctx: SideBySideContext,
    file: DiffFile,
    file_idx: int,
    hunk: DiffHunk,
    n: int,
    s: Sheet,
)
    requires
        0 <= n < hunk.segments@.len(),
    ensures
        ({
            let lines = hunk.lines@;
            let before = first_segments_shown(ctx, file, file_idx, hunk, n, s);
            let after = first_segments_shown(ctx, file, file_idx, hunk, n + 1, s);
            &&& n == 0 ==> before == s
            &&& match hunk.segments@[n] {
                HunkSegment::Context(at) => after == if file.is_commit_message {
                    message_shown(ctx, file, file_idx, lines[at as int], before)
                } else {
                    context_shown(ctx, file, file_idx, lines[at as int], before)
                },
                HunkSegment::ChangeBlock(block) => after == block_shown(
                    ctx,
                    file,
                    file_idx,
                    lines,
                    block,
                    before,
                ),
            }
        }),
{
}

/// A hunk is its gap, its header over the full width, and its lines unless it
/// is folded. The gap of a file's first hunk is that above all hunks.
pub proof fn lemma_hunk_is_gap_header_and_lines(
    ctx: SideBySideContext,
    file: DiffFile,
    file_idx: int,
    hunk_idx: int,
    s: Sheet,
) -> (t: Sheet)
    ensures
        ({
            let hunk = file.hunks@[hunk_idx];
            let gap = gap_shown(ctx, hunk, hunk_idx == 0, s);
            let shown = hunk_shown(ctx, file, file_idx, hunk_idx, s);
            let header = RowView::Full(
                seq![marker(ctx, gap.len(), seq![' ']), (hunk.header@, hunk.header_style)],
            );
            &&& t == (Sheet { rows: gap.rows.push(header), ..gap })
            &&& hunk.is_collapsed ==> shown == t
            &&& !hunk.is_collapsed ==> shown == first_segments_shown(
                ctx,
                file,
                file_idx,
                hunk,
                hunk.segments@.len() as int,
                t,
            )
        }),
{
    let hunk = file.hunks@[hunk_idx];
    let gap = gap_shown(ctx, hunk, hunk_idx == 0, s);
    let row = hunk_header_row(ctx, hunk, gap.len());
    let mark = marker(ctx, gap.len(), seq![' ']);
    assert(mark.0 =~= indicator_text(gap.len(), ctx.current_line_idx as int)
        + blanks(1));
    assert(row->Full_0 =~= seq![mark, (hunk.header@, hunk.header_style)]);
    gap.with_row(row)
}

/// A file shows its hunks in order, all of them; a binary file, one that is too
/// large, and one without hunks show one row with a label in their place.
pub proof fn lemma_hunks_stand_in_order(
    ctx: SideBySideContext,
    file: DiffFile,
    file_idx: int,
    s: Sheet,
)
    ensures
        ({
            let after = |n: int| first_hunks_shown(ctx, file, file_idx, n, s);
            let shown = hunks_shown(ctx, file, file_idx, s);
            let label = RowView::Full(
                seq![
                    marker(ctx, s.len(), seq![' ']),
                    (file.empty_label@, ctx.theme.dim_style),
                ],
            );
            &&& after(0) == s
            &&& forall|n: int|
                0 <= n < file.hunks@.len() ==> #[trigger] after(n + 1) == hunk_shown(
                    ctx,
                    file,
                    file_idx,
                    n,
                    after(n),
                )
            &&& file.is_binary || file.is_too_large || file.hunks@.len() == 0 ==> shown == (
            Sheet { rows: s.rows.push(label), ..s })
            &&& !file.is_binary && !file.is_too_large && file.hunks@.len() > 0 ==> shown == after(
                file.hunks@.len() as int,
            )
        }),
{
    let row = empty_label_row(ctx, file, s.len());
    let mark = marker(ctx, s.len(), seq![' ']);
    assert(mark.0 =~= indicator_text(s.len(), ctx.current_line_idx as int)
        + blanks(1));
    assert(row->Full_0 =~= seq![mark, (file.empty_label@, ctx.theme.dim_style)]);
}

/// A comment of the review or of a file stands as its box, or, while it is
/// being edited there, as the input box; neither has a bar.
pub proof fn lemma_boxed_comment_stands(
    ctx: SideBySideContext,
    comment: Comment,
    writing: bool,
    s: Sheet,
)
    ensures
        ({
            let t = boxed_comment_shown(ctx, comment, writing, s);
            let edited = writing && ctx.editing_comment_id is Some && ctx.editing_comment_id->0@
                == comment.id@;
            &&& t.bars == s.bars
            &&& edited ==> holds_input(
                ctx,
                ctx.comment_input.lines@.len() as int,
                comment.rows,
                s,
                t,
            )
            &&& !edited ==> holds_box(ctx, comment, s, t)
        }),
{
    lemma_box_stands_or_keeps_its_place(ctx, comment, s);
    let len = ctx.comment_input.lines@.len() as int;
    lemma_input_box_is_recorded_where_it_stands(ctx, len, comment.rows, s);
}

/// A file's comments that pass the filter stand in order, and after them the
/// input box of a new one that is being written for this file.
pub proof fn lemma_file_comments_stand_in_order(
    ctx: SideBySideContext,
    file: DiffFile,
    file_idx: int,
    s: Sheet,
)
    ensures
        ({
            let comments = file.file_comments@;
            let writing = ctx.input_mode == InputMode::Comment && ctx.comment_is_file_level
                && file_idx == ctx.current_file_idx;
            let after = |n: int| first_file_comments_shown(ctx, comments, writing, n, s);
            let last = after(comments.len() as int);
            let t = file_comments_shown(ctx, file, file_idx, s);
            &&& after(0) == s
            &&& forall|n: int|
                0 <= n < comments.len() ==> #[trigger] after(n + 1) == if comments[n].is_visible {
                    boxed_comment_shown(ctx, comments[n], writing, after(n))
                } else {
                    after(n)
                }
            &&& writing && ctx.editing_comment_id is None ==> t.bars == last.bars && holds_input(
                ctx,
                ctx.comment_input.lines@.len() as int,
                0,
                last,
                t,
            )
            &&& !(writing && ctx.editing_comment_id is None) ==> t == last
        }),
{
    let comments = file.file_comments@;
    let writing = ctx.input_mode == InputMode::Comment && ctx.comment_is_file_level && file_idx
        == ctx.current_file_idx;
    let last = first_file_comments_shown(ctx, comments, writing, comments.len() as int, s);
    let len = ctx.comment_input.lines@.len() as int;
    lemma_input_box_is_recorded_where_it_stands(ctx, len, 0, last);
}

/// Below a file's header stand a banner where a reviewed file is shown by
/// itself, the file's comments, its hunks, the lines after them, and a row with
/// the indicator alone.
pub proof fn lemma_file_body_in_order(
    ctx: SideBySideContext,
    file: DiffFile,
    file_idx: int,
    s: Sheet,
)
    ensures
        ({
            let banner: Run = (
                ctx.labels.reviewed_banner@,
                Style {
                    fg: Some(ctx.theme.fg_secondary),
                    bg: None,
                    add_modifier: DIM,
                    sub_modifier: 0,
                },
            );
            let t = if file.is_reviewed && ctx.is_single_file_view {
                Sheet {
                    rows: s.rows.push(
                        RowView::Full(seq![marker(ctx, s.len(), Seq::empty()), banner]),
                    ),
                    ..s
                }
            } else {
                s
            };
            let comments = file_comments_shown(ctx, file, file_idx, t);
            let hunks = hunks_shown(ctx, file, file_idx, comments);
            let end = end_gap_shown(ctx, file, hunks);
            file_body_shown(ctx, file, file_idx, s) == (Sheet {
                rows: end.rows.push(
                    RowView::Full(seq![marker(ctx, end.len(), Seq::empty())]),
                ),
                ..end
            })
        }),
{
    lemma_markers(ctx);
    let row = banner_row(ctx, s.len());
    let banner: Run = (
        ctx.labels.reviewed_banner@,
        Style {
            fg: Some(ctx.theme.fg_secondary),
            bg: None,
            add_modifier: DIM,
            sub_modifier: 0,
        },
    );
    assert(row->Full_0 =~= seq![marker(ctx, s.len(), Seq::empty()), banner]);
    let t = if file.is_reviewed && ctx.is_single_file_view {
        s.with_row(row)
    } else {
        s
    };
    let end = end_gap_shown(
        ctx,
        file,
        hunks_shown(ctx, file, file_idx, file_comments_shown(ctx, file, file_idx, t)),
    );
    assert(ctx.indicator(end.len()) =~= seq![marker(ctx, end.len(), Seq::empty())]);
}

proof fn lemma_markers(ctx: SideBySideContext)
    ensures
        forall|row: int|
            #![trigger ctx.indicator(row)]
            ctx.indicator(row) == seq![marker(ctx, row, Seq::empty())],
        forall|row: int|
            #![trigger ctx.indicator_spaced(row)]
            ctx.indicator_spaced(row) == seq![marker(ctx, row, seq![' '])],
{
    assert forall|row: int| #![trigger ctx.indicator(row)] ctx.indicator(row) == seq![
        marker(ctx, row, Seq::empty()),
    ] by {
        assert(marker(ctx, row, Seq::empty()).0 =~= indicator_text(
            row,
            ctx.current_line_idx as int,
        ));
    }
    assert forall|row: int| #![trigger ctx.indicator_spaced(row)] ctx.indicator_spaced(row)
        == seq![marker(ctx, row, seq![' '])] by {
        assert(marker(ctx, row, seq![' ']).0 =~= indicator_text(
            row,
            ctx.current_line_idx as int,
        ) + blanks(1));
    }
}

/// A file that is filtered out, or that is not the one shown by itself, has no
/// rows. Among others a file starts with its header; a folded one is that
/// header alone, and by itself nothing.
pub proof fn lemma_file_is_header_and_body(
    ctx: SideBySideContext,
    file: DiffFile,
    file_idx: int,
    s: Sheet,
)
    ensures
        ({
            let shown = file_shown(ctx, file, file_idx, s);
            let elsewhere = ctx.is_single_file_view && file_idx != ctx.current_file_idx;
            let header = RowView::Full(
                seq![
                    marker(ctx, s.len(), seq![' ']),
                    (file.header@, ctx.theme.file_header_style),
                    (ctx.labels.header_rule@, ctx.theme.file_header_style),
                ],
            );
            let t = if ctx.is_single_file_view {
                s
            } else {
                Sheet { rows: s.rows.push(header), ..s }
            };
            &&& elsewhere || !file.passes_filter ==> shown == s
            &&& !elsewhere && file.passes_filter && file.is_collapsed ==> shown == t
            &&& !elsewhere && file.passes_filter && !file.is_collapsed ==> shown
                == file_body_shown(ctx, file, file_idx, t)
        }),
{
    lemma_markers(ctx);
    let row = file_header_row(ctx, file, s.len());
    assert(row->Full_0 =~= seq![
        marker(ctx, s.len(), seq![' ']),
        (file.header@, ctx.theme.file_header_style),
        (ctx.labels.header_rule@, ctx.theme.file_header_style),
    ]);
}

/// Whether the rows from `top` on are lines as they are.
pub open spec fn as_they_are(lines: Seq<Line>, s: Sheet, t: Sheet) -> bool {
    &&& goes_on(s, t)
    &&& t.len() == s.len() + lines.len()
    &&& t.bars == s.bars && t.input == s.input
    &&& forall|k: int|
        #![trigger lines[k]]
        0 <= k < lines.len() ==> t.rows[s.len() + k] == RowView::Full(runs(lines[k].spans@))
}

/// Finished lines become rows as they are, in order.
pub proof fn lemma_finished_lines_stay(lines: Seq<Line>, s: Sheet)
    ensures
        as_they_are(lines, s, s.with_rows(finished_rows(lines))),
{
    let t = s.with_rows(finished_rows(lines));
    assert forall|k: int| #![trigger lines[k]] 0 <= k < lines.len() implies t.rows[s.len() + k]
        == RowView::Full(runs(lines[k].spans@)) by {
        assert(t.rows[s.len() + k] == finished_rows(lines)[k]);
    }
}

/// The summaries of remote reviews stand in order, each with all its lines.
pub proof fn lemma_summaries_stand_in_order(
    ctx: SideBySideContext,
    summaries: Seq<ReviewSummary>,
    n: int,
    s: Sheet,
)
    requires
        0 <= n < summaries.len(),
    ensures
        ({
            let before = first_summaries_shown(ctx, summaries, n, s);
            let after = first_summaries_shown(ctx, summaries, n + 1, s);
            &&& n == 0 ==> before == s
            &&& adds_lines(ctx, summaries[n].lines@, before, after)
        }),
{
    let before = first_summaries_shown(ctx, summaries, n, s);
    lemma_adds_lines(ctx, summaries[n].lines@, before);
}

/// Whether `t` is `s` with formatted lines after it and nothing else.
pub open spec fn adds_lines(ctx: SideBySideContext, lines: Seq<Line>, s: Sheet, t: Sheet) -> bool {
    &&& goes_on(s, t)
    &&& t.len() == s.len() + lines.len()
    &&& t.bars == s.bars && t.input == s.input
    &&& stand_at(ctx, lines, t.rows, s.len())
}

proof fn lemma_adds_lines(ctx: SideBySideContext, lines: Seq<Line>, s: Sheet)
    ensures
        adds_lines(ctx, lines, s, s.with_rows(ctx.indicated_rows(lines, s.len()))),
{
    let t = s.with_rows(ctx.indicated_rows(lines, s.len()));
    assert forall|k: int| #![trigger lines[k]] 0 <= k < lines.len() implies t.rows[s.len() + k]
        == indicated(ctx, lines[k], s.len() + k) by {
        lemma_formatted_lines_keep_order(ctx, lines, s.len(), k);
        assert(t.rows[s.len() + k] == ctx.indicated_rows(lines, s.len())[k]);
    }
}

/// Of the remote threads those without a line speak of the review as a whole:
/// the shown ones stand in order, without bars, and none does where remote
/// comments are hidden.
pub proof fn lemma_general_threads_stand_in_order(ctx: SideBySideContext, n: int, s: Sheet)
    requires
        0 <= n < ctx.remote_threads@.len(),
    ensures
        ({
            let thread = ctx.remote_threads@[n];
            let before = first_general_threads_shown(ctx, n, s);
            let after = first_general_threads_shown(ctx, n + 1, s);
            let last = first_general_threads_shown(ctx, ctx.remote_threads@.len() as int, s);
            &&& n == 0 ==> before == s
            &&& thread.is_shown && thread.line is None ==> adds_lines(
                ctx,
                thread.lines@,
                before,
                after,
            )
            &&& !thread.is_shown || thread.line is Some ==> after == before
            &&& general_threads_shown(ctx, s) == if ctx.hides_remote_comments {
                s
            } else {
                last
            }
        }),
{
    let before = first_general_threads_shown(ctx, n, s);
    lemma_adds_lines(ctx, ctx.remote_threads@[n].lines@, before);
}

/// Over the files stand the rows about the pull request, the header of the
/// review's own comments where it is shown, the summaries, those comments, the
/// threads without a line, and the input box of a new comment on the review.
pub proof fn lemma_review_in_order(ctx: SideBySideContext, doc: ReviewDocument, s: Sheet) -> (info:
    Sheet)
    ensures
        ({
            let header = RowView::Full(
                seq![
                    marker(ctx, info.len(), seq![' ']),
                    (ctx.labels.review_comments_header@, ctx.theme.file_header_style),
                    (ctx.labels.header_rule@, ctx.theme.file_header_style),
                ],
            );
            let start = if doc.shows_review_comments_header {
                Sheet { rows: info.rows.push(header), ..info }
            } else {
                info
            };
            let summaries = first_summaries_shown(
                ctx,
                doc.review_summaries@,
                doc.review_summaries@.len() as int,
                start,
            );
            let comments = doc.review_comments@;
            let after = |n: int| first_review_comments_shown(ctx, comments, n, summaries);
            let threads = general_threads_shown(ctx, after(comments.len() as int));
            let writing = ctx.input_mode == InputMode::Comment && ctx.comment_is_review_level;
            let shown = review_shown(ctx, doc, s);
            &&& as_they_are(doc.pr_info@, s, info)
            &&& after(0) == summaries
            &&& forall|n: int|
                0 <= n < comments.len() ==> #[trigger] after(n + 1) == boxed_comment_shown(
                    ctx,
                    comments[n],
                    writing,
                    after(n),
                )
            &&& writing && ctx.editing_comment_id is None ==> shown.bars == threads.bars
                && holds_input(
                ctx,
                ctx.comment_input.lines@.len() as int,
                0,
                threads,
                shown,
            )
            &&& !(writing && ctx.editing_comment_id is None) ==> shown == threads
        }),
{
    lemma_markers(ctx);
    lemma_finished_lines_stay(doc.pr_info@, s);
    let info = s.with_rows(finished_rows(doc.pr_info@));
    let row = review_header_row(ctx, info.len());
    assert(row->Full_0 =~= seq![
        marker(ctx, info.len(), seq![' ']),
        (ctx.labels.review_comments_header@, ctx.theme.file_header_style),
        (ctx.labels.header_rule@, ctx.theme.file_header_style),
    ]);
    let start = if doc.shows_review_comments_header {
        info.with_row(row)
    } else {
        info
    };
    let n = doc.review_summaries@.len() as int;
    let summaries = first_summaries_shown(ctx, doc.review_summaries@, n, start);
    let m = doc.review_comments@.len() as int;
    let comments = first_review_comments_shown(ctx, doc.review_comments@, m, summaries);
    let threads = general_threads_shown(ctx, comments);
    let len = ctx.comment_input.lines@.len() as int;
    lemma_input_box_is_recorded_where_it_stands(ctx, len, 0, threads);
    info
}

/// A document is what stands over the files, the pull request's discussion as
/// it is, and then all files in order.
pub proof fn lemma_files_stand_in_order(ctx: SideBySideContext, doc: ReviewDocument) -> (start:
    Sheet)
    ensures
        ({
            let none = Sheet { rows: Seq::empty(), bars: Seq::empty(), input: None };
            let after = |n: int| first_files_shown(ctx, doc.files@, n, start);
            &&& as_they_are(doc.issue_comments@, review_shown(ctx, doc, none), start)
            &&& after(0) == start
            &&& forall|n: int|
                0 <= n < doc.files@.len() ==> #[trigger] after(n + 1) == file_shown(
                    ctx,
                    doc.files@[n],
                    n,
                    after(n),
                )
            &&& document_sheet(ctx, doc) == after(doc.files@.len() as int)
        }),
{
    let review = review_shown(ctx, doc, Sheet::empty());
    lemma_finished_lines_stay(doc.issue_comments@, review);
    review.with_rows(finished_rows(doc.issue_comments@))
}

proof fn lemma_on_comments(
    ctx: SideBySideContext,
    comments: Seq<Comment>,
    line: u32,
    side: LineSide,
    file_idx: int,
    n: int,
    s: Sheet,
)
    ensures
        goes_on(s, first_comments_shown(ctx, comments, line, side, file_idx, n, s)),
    decreases n,
{
    if n > 0 {
        lemma_on_comments(ctx, comments, line, side, file_idx, n - 1, s);
        let t = first_comments_shown(ctx, comments, line, side, file_idx, n - 1, s);
        assert(goes_on(t, line_comment_shown(ctx, comments[n - 1], line, side, file_idx, t)));
    }
}

proof fn lemma_on_notes(
    ctx: SideBySideContext,
    file: DiffFile,
    file_idx: int,
    lineno: Option<u32>,
    side: LineSide,
    s: Sheet,
)
    ensures
        goes_on(s, notes_shown(ctx, file, file_idx, lineno, side, s)),
{
    if let Some(line) = lineno {
        let comments = comments_at(file.line_comments@, line);
        let n = comments.len() as int;
        lemma_on_comments(ctx, comments, line, side, file_idx, n, s);
        let t = comments_shown(ctx, file.line_comments@, line, side, file_idx, s);
        assert(goes_on(s, t));
        lemma_threads_hang_below_their_line(ctx, file.path@, line, side, t);
    }
}

/// Whether a sheet holds a thread's lines below the row `above`, and a bar for
/// the line at the first of them.
pub open spec fn holds_thread(
    ctx: SideBySideContext,
    thread: RemoteReviewThread,
    line: u32,
    above: int,
    t: Sheet,
) -> bool {
    exists|top: int|
        above < top && #[trigger] stand_at(ctx, thread.lines@, t.rows, top) && t.bars.contains(
            CommentBarAnchor {
                row: top as usize,
                line_range: LineRange { start: line, end: line },
            },
        )
}

proof fn lemma_notes_hold_thread(
    ctx: SideBySideContext,
    file: DiffFile,
    file_idx: int,
    line: u32,
    side: LineSide,
    s: Sheet,
    i: int,
)
    requires
        0 < s.len(),
        !ctx.hides_remote_comments,
        0 <= i < ctx.remote_threads@.len(),
        hangs_at(ctx.remote_threads@[i], file.path@, line, side),
    ensures
        holds_thread(
            ctx,
            ctx.remote_threads@[i],
            line,
            s.len() - 1,
            notes_shown(ctx, file, file_idx, Some(line), side, s),
        ),
{
    let threads = ctx.remote_threads@;
    let comments = comments_at(file.line_comments@, line);
    lemma_on_comments(ctx, comments, line, side, file_idx, comments.len() as int, s);
    let t = comments_shown(ctx, file.line_comments@, line, side, file_idx, s);
    assert(goes_on(s, t));
    let u = threads_shown(ctx, file.path@, line, side, t);
    lemma_threads_hang_below_their_line(ctx, file.path@, line, side, t);
    assert(hangs_at(threads[i], file.path@, line, side));
    lemma_counts_are_not_negative(threads, file.path@, line, side, i);
    lemma_threads_hang_among(threads, file.path@, line, side, i);
    let top = t.len() + thread_rows_before(threads, file.path@, line, side, i);
    let bar = t.bars.len() + threads_before(threads, file.path@, line, side, i);
    assert(stand_at(ctx, threads[i].lines@, u.rows, top));
    assert(u.bars[bar].row == top as usize);
}

proof fn lemma_threads_hang_among(
    threads: Seq<RemoteReviewThread>,
    path: Seq<char>,
    line: u32,
    side: LineSide,
    i: int,
)
    requires
        0 <= i < threads.len(),
        hangs_at(threads[i], path, line, side),
    ensures
        threads_before(threads, path, line, side, i) < threads_before(
            threads,
            path,
            line,
            side,
            threads.len() as int,
        ),
{
    lemma_threads_before_grows(threads, path, line, side, i + 1, threads.len() as int);
}

proof fn lemma_threads_before_grows(
    threads: Seq<RemoteReviewThread>,
    path: Seq<char>,
    line: u32,
    side: LineSide,
    i: int,
    j: int,
)
    requires
        i <= j,
    ensures
        threads_before(threads, path, line, side, i) <= threads_before(
            threads,
            path,
            line,
            side,
            j,
        ),
    decreases j - i,
{
    if i < j {
        lemma_threads_before_grows(threads, path, line, side, i, j - 1);
    }
}

proof fn lemma_thread_stays(
    ctx: SideBySideContext,
    thread: RemoteReviewThread,
    line: u32,
    above: int,
    s: Sheet,
    t: Sheet,
)
    requires
        holds_thread(ctx, thread, line, above, s),
        goes_on(s, t),
    ensures
        holds_thread(ctx, thread, line, above, t),
{
    let top = choose|top: int|
        above < top && #[trigger] stand_at(ctx, thread.lines@, s.rows, top) && s.bars.contains(
            CommentBarAnchor {
                row: top as usize,
                line_range: LineRange { start: line, end: line },
            },
        );
    let bar = CommentBarAnchor {
        row: top as usize,
        line_range: LineRange { start: line, end: line },
    };
    let k = choose|k: int| 0 <= k < s.bars.len() && s.bars[k] == bar;
    assert(t.bars[k] == bar);
    let lines = thread.lines@;
    assert forall|k: int| #![trigger lines[k]] 0 <= k < lines.len() implies t.rows[top + k]
        == indicated(ctx, lines[k], top + k) by {
        assert(t.rows[top + k] == s.rows[top + k]);
    }
    assert(stand_at(ctx, lines, t.rows, top));
}

/// Where remote comments are shown, a thread on the left hangs below the
/// deleted line with its number, and one on the right below the added or
/// context line with its number, all its lines and a bar with it.
pub proof fn lemma_threads_hang_below_both_sides(
    ctx: SideBySideContext,
    file: DiffFile,
    file_idx: int,
    deletion: Option<DiffLine>,
    addition: Option<DiffLine>,
    context: DiffLine,
    s: Sheet,
    i: int,
)
    requires
        !ctx.hides_remote_comments,
        0 <= i < ctx.remote_threads@.len(),
        ctx.remote_threads@[i].is_shown,
        ctx.remote_threads@[i].path@ == file.path@,
        ctx.remote_threads@[i].line is Some,
    ensures
        ({
            let thread = ctx.remote_threads@[i];
            let line = thread.line->0;
            let changed = pair_shown(ctx, file, file_idx, deletion, addition, s);
            let unchanged = context_shown(ctx, file, file_idx, context, s);
            &&& thread.side == RemoteCommentSide::Left && deletion is Some
                && deletion->0.old_lineno == Some(line) ==> holds_thread(
                ctx,
                thread,
                line,
                s.len(),
                changed,
            )
            &&& thread.side == RemoteCommentSide::Right && addition is Some
                && addition->0.new_lineno == Some(line) ==> holds_thread(
                ctx,
                thread,
                line,
                s.len(),
                changed,
            )
            &&& thread.side == RemoteCommentSide::Right && context.new_lineno == Some(line)
                ==> holds_thread(ctx, thread, line, s.len(), unchanged)
        }),
{
    let thread = ctx.remote_threads@[i];
    let line = thread.line->0;
    let row = change_row(ctx, deletion, addition, s.len());
    let t = s.with_row(culled(ctx, s.len(), row));
    let old = old_lineno(deletion);
    let new = new_lineno(addition);
    let u = notes_shown(ctx, file, file_idx, old, LineSide::Old, t);
    let v = notes_shown(ctx, file, file_idx, new, LineSide::New, u);
    lemma_on_notes(ctx, file, file_idx, old, LineSide::Old, t);
    lemma_on_notes(ctx, file, file_idx, new, LineSide::New, u);
    if thread.side == RemoteCommentSide::Left {
        if old == Some(line) {
            lemma_notes_hold_thread(ctx, file, file_idx, line, LineSide::Old, t, i);
            lemma_thread_stays(ctx, thread, line, s.len(), u, v);
        }
    } else {
        if new == Some(line) {
            lemma_notes_hold_thread(ctx, file, file_idx, line, LineSide::New, u, i);
            let top = choose|top: int|
                u.len() - 1 < top && #[trigger] stand_at(ctx, thread.lines@, v.rows, top)
                    && v.bars.contains(
                    CommentBarAnchor {
                        row: top as usize,
                        line_range: LineRange { start: line, end: line },
                    },
                );
            assert(s.len() < top && stand_at(ctx, thread.lines@, v.rows, top));
        }
        if context.new_lineno == Some(line) {
            let row = context_row(ctx, context, s.len());
            let t = s.with_row(culled(ctx, s.len(), row));
            lemma_notes_hold_thread(ctx, file, file_idx, line, LineSide::New, t, i);
        }
    }
}

proof fn lemma_on_pairs(
    ctx: SideBySideContext,
    file: DiffFile,
    file_idx: int,
    lines: Seq<DiffLine>,
    pairs: Seq<BlockRow>,
    n: int,
    m: int,
    s: Sheet,
)
    requires
        n <= m,
    ensures
        goes_on(
            first_pairs_shown(ctx, file, file_idx, lines, pairs, n, s),
            first_pairs_shown(ctx, file, file_idx, lines, pairs, m, s),
        ),
    decreases m - n,
{
    if n < m && m > 0 {
        lemma_on_pairs(ctx, file, file_idx, lines, pairs, n, m - 1, s);
        let t = first_pairs_shown(ctx, file, file_idx, lines, pairs, m - 1, s);
        let deletion = line_at(lines, pairs[m - 1].0);
        let addition = line_at(lines, pairs[m - 1].1);
        lemma_on_pair(ctx, file, file_idx, deletion, addition, t);
    }
}

proof fn lemma_on_pair(
    ctx: SideBySideContext,
    file: DiffFile,
    file_idx: int,
    deletion: Option<DiffLine>,
    addition: Option<DiffLine>,
    s: Sheet,
)
    ensures
        ({
            let row = change_row(ctx, deletion, addition, s.len());
            let t = pair_shown(ctx, file, file_idx, deletion, addition, s);
            &&& goes_on(s, t)
            &&& s.len() < t.len()
            &&& t.rows[s.len()] == if on_screen(ctx, s.len()) {
                row
            } else {
                RowView::Full(Seq::empty())
            }
        }),
{
    let t = s.with_row(
        culled(ctx, s.len(), change_row(ctx, deletion, addition, s.len())),
    );
    let old = old_lineno(deletion);
    let new = new_lineno(addition);
    lemma_on_notes(ctx, file, file_idx, old, LineSide::Old, t);
    let u = notes_shown(ctx, file, file_idx, old, LineSide::Old, t);
    lemma_on_notes(ctx, file, file_idx, new, LineSide::New, u);
}

proof fn lemma_on_segment(
    ctx: SideBySideContext,
    file: DiffFile,
    file_idx: int,
    lines: Seq<DiffLine>,
    segment: HunkSegment,
    s: Sheet,
)
    ensures
        goes_on(s, segment_shown(ctx, file, file_idx, lines, segment, s)),
        segment is Context && !file.is_commit_message ==> ({
            let t = segment_shown(ctx, file, file_idx, lines, segment, s);
            &&& s.len() < t.len()
            &&& t.rows[s.len()] == if on_screen(ctx, s.len()) {
                context_row(ctx, lines[segment->Context_0 as int], s.len())
            } else {
                RowView::Full(Seq::empty())
            }
        }),
{
    match segment {
        HunkSegment::Context(at) => {
            let dl = lines[at as int];
            let row = if file.is_commit_message {
                message_row(ctx, dl, s.len())
            } else {
                context_row(ctx, dl, s.len())
            };
            let t = s.with_row(culled(ctx, s.len(), row));
            lemma_on_notes(ctx, file, file_idx, dl.new_lineno, LineSide::New, t);
        },
        HunkSegment::ChangeBlock(block) => {
            lemma_on_pairs(
                ctx,
                file,
                file_idx,
                lines,
                block.paired(),
                0,
                block.row_count(),
                s,
            );
        },
    }
}

proof fn lemma_on_segments(
    ctx: SideBySideContext,
    file: DiffFile,
    file_idx: int,
    hunk: DiffHunk,
    n: int,
    m: int,
    s: Sheet,
)
    requires
        n <= m,
    ensures
        goes_on(
            first_segments_shown(ctx, file, file_idx, hunk, n, s),
            first_segments_shown(ctx, file, file_idx, hunk, m, s),
        ),
    decreases m - n,
{
    if n < m && m > 0 {
        lemma_on_segments(ctx, file, file_idx, hunk, n, m - 1, s);
        let t = first_segments_shown(ctx, file, file_idx, hunk, m - 1, s);
        lemma_on_segment(ctx, file, file_idx, hunk.lines@, hunk.segments@[m - 1], t);
    }
}

proof fn lemma_on_hunk(
    ctx: SideBySideContext,
    file: DiffFile,
    file_idx: int,
    hunk_idx: int,
    s: Sheet,
)
    ensures
        goes_on(s, hunk_shown(ctx, file, file_idx, hunk_idx, s)),
{
    let hunk = file.hunks@[hunk_idx];
    let t = lemma_hunk_is_gap_header_and_lines(ctx, file, file_idx, hunk_idx, s);
    lemma_on_segments(ctx, file, file_idx, hunk, 0, hunk.segments@.len() as int, t);
}

proof fn lemma_on_hunks(
    ctx: SideBySideContext,
    file: DiffFile,
    file_idx: int,
    n: int,
    m: int,
    s: Sheet,
)
    requires
        n <= m,
    ensures
        goes_on(
            first_hunks_shown(ctx, file, file_idx, n, s),
            first_hunks_shown(ctx, file, file_idx, m, s),
        ),
    decreases m - n,
{
    if n < m && m > 0 {
        lemma_on_hunks(ctx, file, file_idx, n, m - 1, s);
        let t = first_hunks_shown(ctx, file, file_idx, m - 1, s);
        lemma_on_hunk(ctx, file, file_idx, m - 1, t);
    }
}

proof fn lemma_on_file_comments(
    ctx: SideBySideContext,
    comments: Seq<Comment>,
    writing: bool,
    n: int,
    s: Sheet,
)
    ensures
        goes_on(s, first_file_comments_shown(ctx, comments, writing, n, s)),
    decreases n,
{
    if n > 0 {
        lemma_on_file_comments(ctx, comments, writing, n - 1, s);
        let t = first_file_comments_shown(ctx, comments, writing, n - 1, s);
        lemma_boxed_comment_stands(ctx, comments[n - 1], writing, t);
    }
}

proof fn lemma_on_file(ctx: SideBySideContext, file: DiffFile, file_idx: int, s: Sheet)
    ensures
        goes_on(s, file_shown(ctx, file, file_idx, s)),
{
    let t = if ctx.is_single_file_view {
        s
    } else {
        s.with_row(file_header_row(ctx, file, s.len()))
    };
    let u = if file.is_reviewed && ctx.is_single_file_view {
        t.with_row(banner_row(ctx, t.len()))
    } else {
        t
    };
    let n = file.file_comments@.len() as int;
    let writing = ctx.writes_file_comment(file_idx);
    lemma_on_file_comments(ctx, file.file_comments@, writing, n, u);
    let v = file_comments_shown(ctx, file, file_idx, u);
    assert(goes_on(u, v));
    lemma_on_hunks(ctx, file, file_idx, 0, file.hunks@.len() as int, v);
    let w = hunks_shown(ctx, file, file_idx, v);
    assert(goes_on(v, w));
    assert(goes_on(w, end_gap_shown(ctx, file, w)));
}

proof fn lemma_on_files(ctx: SideBySideContext, files: Seq<DiffFile>, n: int, m: int, s: Sheet)
    requires
        n <= m,
    ensures
        goes_on(first_files_shown(ctx, files, n, s), first_files_shown(ctx, files, m, s)),
    decreases m - n,
{
    if n < m && m > 0 {
        lemma_on_files(ctx, files, n, m - 1, s);
        lemma_on_file(ctx, files[m - 1], m - 1, first_files_shown(ctx, files, m - 1, s));
    }
}

/// The sheet before the segments of a hunk of a file in a document.
proof fn lemma_hunk_in_document(
    ctx: SideBySideContext,
    doc: ReviewDocument,
    f: int,
    h: int,
) -> (start: Sheet)
    requires
        shows_hunk(ctx, doc, f, h),
    ensures
        ({
            let file = doc.files@[f];
            let hunk = file.hunks@[h];
            goes_on(
                first_segments_shown(ctx, file, f, hunk, hunk.segments@.len() as int, start),
                document_sheet(ctx, doc),
            )
        }),
{
    let file = doc.files@[f];
    let hunk = file.hunks@[h];
    let start = lemma_files_stand_in_order(ctx, doc);
    let review = review_shown(ctx, doc, Sheet::empty());
    let start = review.with_rows(finished_rows(doc.issue_comments@));
    lemma_on_files(ctx, doc.files@, f + 1, doc.files@.len() as int, start);
    let s = first_files_shown(ctx, doc.files@, f, start);
    lemma_file_is_header_and_body(ctx, file, f, s);
    lemma_file_body_in_order(ctx, file, f, s);
    let t = if ctx.is_single_file_view {
        s
    } else {
        s.with_row(file_header_row(ctx, file, s.len()))
    };
    let u = if file.is_reviewed && ctx.is_single_file_view {
        t.with_row(banner_row(ctx, t.len()))
    } else {
        t
    };
    let v = file_comments_shown(ctx, file, f, u);
    let w = hunks_shown(ctx, file, f, v);
    assert(goes_on(w, end_gap_shown(ctx, file, w)));
    assert(goes_on(w, file_shown(ctx, file, f, s)));
    lemma_on_hunks(ctx, file, f, h + 1, file.hunks@.len() as int, v);
    lemma_hunk_is_gap_header_and_lines(ctx, file, f, h, first_hunks_shown(ctx, file, f, h, v))
}

/// Whether the lines of a hunk are shown: neither the hunk nor its file is
/// folded, the file passes the filter and has hunks to show, and it is the one
/// in view where files are shown one by one.
pub open spec fn shows_hunk(
    ctx: SideBySideContext,
    doc: ReviewDocument,
    f: int,
    h: int,
) -> bool {
    &&& 0 <= f < doc.files@.len()
    &&& 0 <= h < doc.files@[f].hunks@.len()
    &&& ctx.is_single_file_view ==> f == ctx.current_file_idx
    &&& doc.files@[f].passes_filter && !doc.files@[f].is_collapsed
    &&& !doc.files@[f].is_binary && !doc.files@[f].is_too_large
    &&& !doc.files@[f].hunks@[h].is_collapsed
}

/// No line is lost: every context line of a hunk whose lines are shown has a
/// row in the document, and where that row is on screen it shows the line.
pub proof fn lemma_every_context_line_has_a_row(
    ctx: SideBySideContext,
    doc: ReviewDocument,
    f: int,
    h: int,
    n: int,
) -> (at: int)
    requires
        shows_hunk(ctx, doc, f, h),
        !doc.files@[f].is_commit_message,
        0 <= n < doc.files@[f].hunks@[h].segments@.len(),
        doc.files@[f].hunks@[h].segments@[n] is Context,
    ensures
        0 <= at < document_sheet(ctx, doc).len(),
        ({
            let hunk = doc.files@[f].hunks@[h];
            let line = hunk.lines@[hunk.segments@[n]->Context_0 as int];
            document_sheet(ctx, doc).rows[at] == if on_screen(ctx, at) {
                context_row(ctx, line, at)
            } else {
                RowView::Full(Seq::empty())
            }
        }),
{
    let file = doc.files@[f];
    let hunk = file.hunks@[h];
    let start = lemma_hunk_in_document(ctx, doc, f, h);
    let s = first_segments_shown(ctx, file, f, hunk, n, start);
    lemma_on_segment(ctx, file, f, hunk.lines@, hunk.segments@[n], s);
    lemma_on_segments(ctx, file, f, hunk, n + 1, hunk.segments@.len() as int, start);
    s.len()
}

/// No line is lost: every deletion and every addition of a hunk whose lines are
/// shown has a row in the document, on the same row as the line at its position
/// on the other side where there is one, and where that row is on screen it
/// shows the line.
pub proof fn lemma_every_changed_line_has_a_row(
    ctx: SideBySideContext,
    doc: ReviewDocument,
    f: int,
    h: int,
    n: int,
    i: int,
) -> (at: int)
    requires
        shows_hunk(ctx, doc, f, h),
        0 <= n < doc.files@[f].hunks@[h].segments@.len(),
        match doc.files@[f].hunks@[h].segments@[n] {
            HunkSegment::ChangeBlock(block) => 0 <= i < block.deletions@.len() || 0 <= i
                < block.additions@.len(),
            _ => false,
        },
    ensures
        0 <= at < document_sheet(ctx, doc).len(),
        ({
            let hunk = doc.files@[f].hunks@[h];
            let block = hunk.segments@[n]->ChangeBlock_0;
            document_sheet(ctx, doc).rows[at] == if on_screen(ctx, at) {
                change_row(
                    ctx,
                    nth_line(hunk.lines@, block.deletions@, i),
                    nth_line(hunk.lines@, block.additions@, i),
                    at,
                )
            } else {
                RowView::Full(Seq::empty())
            }
        }),
{
    let file = doc.files@[f];
    let hunk = file.hunks@[h];
    let block = hunk.segments@[n]->ChangeBlock_0;
    let pairs = block.paired();
    let start = lemma_hunk_in_document(ctx, doc, f, h);
    let s = first_segments_shown(ctx, file, f, hunk, n, start);
    lemma_on_segments(ctx, file, f, hunk, n + 1, hunk.segments@.len() as int, start);
    lemma_on_pairs(ctx, file, f, hunk.lines@, pairs, i + 1, block.row_count(), s);
    let t = first_pairs_shown(ctx, file, f, hunk.lines@, pairs, i, s);
    lemma_on_pair(
        ctx,
        file,
        f,
        nth_line(hunk.lines@, block.deletions@, i),
        nth_line(hunk.lines@, block.additions@, i),
        t,
    );
    t.len()
}

} // verus!
