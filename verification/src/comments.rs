//! Comments and remote review threads below the lines they speak of.

use crate::context::{InputMode, SideBySideContext};
use crate::model::{Comment, LineRange, LineSide, RemoteCommentSide, RemoteReviewThread};
use crate::rows::{Sheet, SideBySideRows};
use std::collections::HashMap;
use vstd::prelude::*;

verus! {

/// Whether a thread is shown at the given line and side of a file.
pub open spec fn anchored(
    thread: RemoteReviewThread,
    path: Seq<char>,
    line: u32,
    side: LineSide,
) -> bool {
    &&& thread.is_shown
    &&& thread.path@ == path
    &&& thread.line == Some(line)
    &&& match thread.side {
        RemoteCommentSide::Right => side == LineSide::New,
        RemoteCommentSide::Left => side == LineSide::Old,
    }
}

/// The sheet with those of the first `n` threads that are anchored at the line,
/// and the bar of each.
pub open spec fn first_threads_shown(
    ctx: SideBySideContext,
    path: Seq<char>,
    line: u32,
    side: LineSide,
    n: int,
    s: Sheet,
) -> Sheet
    decreases n,
{
    if n <= 0 {
        s
    } else {
        let t = first_threads_shown(ctx, path, line, side, n - 1, s);
        let thread = ctx.remote_threads@[n - 1];
        if anchored(thread, path, line, side) {
            t.with_rows(ctx.indicated_rows(thread.lines@, t.len())).with_bar(
                t.len(),
                LineRange::of_line(line),
            )
        } else {
            t
        }
    }
}

/// The sheet with the threads that are anchored at the line; none where remote
/// comments are hidden.
pub open spec fn threads_shown(
    ctx: SideBySideContext,
    path: Seq<char>,
    line: u32,
    side: LineSide,
    s: Sheet,
) -> Sheet {
    if ctx.hides_remote_comments {
        s
    } else {
        first_threads_shown(ctx, path, line, side, ctx.remote_threads@.len() as int, s)
    }
}

/// Render remote review threads anchored at this `(file, line, side)`
/// position.
pub fn add_remote_threads_to_line(
    line_num: u32,
    side: LineSide,
    ctx: &SideBySideContext,
    path: &String,
    out: &mut SideBySideRows,
)
    ensures
        final(out)@ == threads_shown(*ctx, path@, line_num, side, old(out)@),
{
    if ctx.hides_remote_comments {
        return;
    }
    let mut i: usize = 0;
    while i < ctx.remote_threads.len()
        invariant
            i <= ctx.remote_threads.len(),
            out@ == first_threads_shown(*ctx, path@, line_num, side, i as int, old(out)@),
        decreases ctx.remote_threads.len() - i,
    {
        let thread = &ctx.remote_threads[i];
        let at_line = match thread.line {
            Some(line) => line == line_num,
            None => false,
        };
        let at_side = match thread.side {
            RemoteCommentSide::Right => side == LineSide::New,
            RemoteCommentSide::Left => side == LineSide::Old,
        };
        if thread.is_shown && thread.path == *path && at_line && at_side {
            let top: usize = out.rows.len();
            ctx.push_lines(&thread.lines, out);
            out.push_comment_bar(top, LineRange::single(line_num));
        }
        i = i + 1;
    }
}

/// Whether a comment belongs to the given side; one without a side belongs to
/// the new one.
pub open spec fn on_side(comment: Comment, side: LineSide) -> bool {
    side == match comment.side {
        Some(own) => own,
        None => LineSide::New,
    }
}

/// The lines that a comment speaks of: its own range, or the line it hangs at.
pub open spec fn range_or_line(range: Option<LineRange>, line: u32) -> LineRange {
    match range {
        Some(own) => own,
        None => LineRange::of_line(line),
    }
}

/// Whether a comment is being written at the given line and side of a file.
pub open spec fn writes_here(
    ctx: SideBySideContext,
    line: u32,
    side: LineSide,
    file_idx: int,
) -> bool {
    ctx.writes_line_comment() && file_idx == ctx.current_file_idx && ctx.comment_line == Some(
        (line, side),
    )
}

/// How many rows of annotations the input box at a line stands for.
pub open spec fn input_box_len(ctx: SideBySideContext) -> int {
    if ctx.comment_input.lines@.len() == 0 {
        1
    } else {
        ctx.comment_input.lines@.len() as int
    }
}

/// The sheet with the input box at a line, and its bar.
pub open spec fn line_input_shown(
    ctx: SideBySideContext,
    line: u32,
    replaced: usize,
    s: Sheet,
) -> Sheet {
    ctx.input_shown(s, input_box_len(ctx), replaced).with_bar(
        s.len(),
        range_or_line(ctx.comment_line_range, line),
    )
}

/// The sheet with a comment below a line, and its bar: the input box where the
/// comment is being edited, its own box otherwise.
pub open spec fn line_comment_shown(
    ctx: SideBySideContext,
    comment: Comment,
    line: u32,
    side: LineSide,
    file_idx: int,
    s: Sheet,
) -> Sheet {
    if !on_side(comment, side) || !comment.is_visible {
        s
    } else if writes_here(ctx, line, side, file_idx) && ctx.edits(comment) {
        line_input_shown(ctx, line, comment.rows, s)
    } else {
        ctx.box_shown(s, comment).with_bar(s.len(), range_or_line(comment.line_range, line))
    }
}

/// The sheet with the first `n` comments below a line.
pub open spec fn first_comments_shown(
    ctx: SideBySideContext,
    comments: Seq<Comment>,
    line: u32,
    side: LineSide,
    file_idx: int,
    n: int,
    s: Sheet,
) -> Sheet
    decreases n,
{
    if n <= 0 {
        s
    } else {
        line_comment_shown(
            ctx,
            comments[n - 1],
            line,
            side,
            file_idx,
            first_comments_shown(ctx, comments, line, side, file_idx, n - 1, s),
        )
    }
}

/// The comments at a line.
pub open spec fn comments_at(line_comments: Map<u32, Vec<Comment>>, line: u32) -> Seq<Comment> {
    if line_comments.contains_key(line) {
        line_comments[line]@
    } else {
        Seq::empty()
    }
}

/// The sheet with the comments at a line and side, and the input box of a new
/// one that is being written there.
pub open spec fn comments_shown(
    ctx: SideBySideContext,
    line_comments: Map<u32, Vec<Comment>>,
    line: u32,
    side: LineSide,
    file_idx: int,
    s: Sheet,
) -> Sheet {
    let comments = comments_at(line_comments, line);
    let t = first_comments_shown(
        ctx,
        comments,
        line,
        side,
        file_idx,
        comments.len() as int,
        s,
    );
    if writes_here(ctx, line, side, file_idx) && ctx.editing_comment_id is None {
        line_input_shown(ctx, line, 0, t)
    } else {
        t
    }
}

/// A range, or the range of a line.
fn range_or_single(range: Option<LineRange>, line: u32) -> (out: LineRange)
    ensures
        out == range_or_line(range, line),
{
    match range {
        Some(own) => own,
        None => LineRange::single(line),
    }
}

/// Append the input box at a line, and its bar.
fn push_line_input(ctx: &SideBySideContext, line: u32, replaced: usize, out: &mut SideBySideRows)
    requires
        ctx.wf(),
        ctx.input_mode == InputMode::Comment,
    ensures
        final(out)@ == line_input_shown(*ctx, line, replaced, old(out)@),
{
    let top: usize = out.rows.len();
    let len: usize = if ctx.comment_input.lines.len() == 0 {
        1
    } else {
        ctx.comment_input.lines.len()
    };
    ctx.push_input(len, replaced, out);
    out.push_comment_bar(top, range_or_single(ctx.comment_line_range, line));
}

/// Append a comment below a line, and its bar.
fn push_line_comment(
    ctx: &SideBySideContext,
    comment: &Comment,
    line: u32,
    side: LineSide,
    file_idx: usize,
    is_line_comment_mode: bool,
    out: &mut SideBySideRows,
)
    requires
        ctx.wf(),
        is_line_comment_mode == writes_here(*ctx, line, side, file_idx as int),
    ensures
        final(out)@ == line_comment_shown(*ctx, *comment, line, side, file_idx as int, old(out)@),
{
    let comment_side = match comment.side {
        Some(own) => own,
        None => LineSide::New,
    };
    if comment_side != side || !comment.is_visible {
        return;
    }
    if is_line_comment_mode && ctx.is_edited(comment) {
        push_line_input(ctx, line, comment.rows, out);
    } else {
        let top: usize = out.rows.len();
        // The bar is recorded either way: it is painted above the box, so it
        // can be on screen while the box itself is not.
        ctx.push_box(comment, out);
        out.push_comment_bar(top, range_or_single(comment.line_range, line));
    }
}

/// Add comments for a specific line, and the input box of one that is being
/// written there.
pub fn add_comments_to_line(
    line_num: u32,
    line_comments: &HashMap<u32, Vec<Comment>>,
    side: LineSide,
    ctx: &SideBySideContext,
    file_idx: usize,
    out: &mut SideBySideRows,
)
    requires
        ctx.wf(),
    ensures
        final(out)@ == comments_shown(
            *ctx,
            line_comments@,
            line_num,
            side,
            file_idx as int,
            old(out)@,
        ),
{
    broadcast use vstd::std_specs::hash::group_hash_axioms;

    let at_line = match ctx.comment_line {
        Some((line, line_side)) => line == line_num && line_side == side,
        None => false,
    };
    let is_line_comment_mode = ctx.is_writing_line_comment() && file_idx == ctx.current_file_idx
        && at_line;
    if let Some(comments) = line_comments.get(&line_num) {
        let mut i: usize = 0;
        while i < comments.len()
            invariant
                i <= comments.len(),
                ctx.wf(),
                is_line_comment_mode == writes_here(*ctx, line_num, side, file_idx as int),
                out@ == first_comments_shown(
                    *ctx,
                    comments@,
                    line_num,
                    side,
                    file_idx as int,
                    i as int,
                    old(out)@,
                ),
            decreases comments.len() - i,
        {
            push_line_comment(
                ctx,
                &comments[i],
                line_num,
                side,
                file_idx,
                is_line_comment_mode,
                out,
            );
            i = i + 1;
        }
    }
    if is_line_comment_mode && ctx.editing_comment_id.is_none() {
        push_line_input(ctx, line_num, 0, out);
    }
}

} // verus!
