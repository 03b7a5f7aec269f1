//! What holds of every side-by-side document: what is anchored to rows stays
//! where the rows are, and a row shows the same text whether lines wrap or
//! not.

use crate::comments::{
    anchored, comments_at, comments_shown, first_comments_shown, first_threads_shown,
    input_box_len, line_input_shown, range_or_line,
};
use crate::context::{InputMode, SideBySideContext};
use crate::gap_rows::{
    end_gap_shown, expanded_rows, gap_rows_shown, gap_shown, remaining_lines, stub_rows,
    stubs_above, stubs_at_end,
};
use crate::gutter::indicator_text;
use crate::hunk_rows::{
    culled, first_pairs_shown, first_segments_shown, message_row, new_lineno, notes_shown,
    old_lineno,
};
use crate::line_rows::{change_row, context_row, line_at};
use crate::model::{
    BlockRow, Comment, DiffFile, DiffHunk, DiffLine, ExpandedLines, HunkSegment, LineOrigin,
    LineRange, LineSide,
};
use crate::rows::{blank_rows, Cut, GapStub, RowView, Sheet};
use crate::side_by_side::{
    banner_row, boxed_comment_shown, document_sheet, empty_label_row, file_body_shown,
    file_comments_shown, file_header_row, finished_rows, first_file_comments_shown,
    first_files_shown, first_general_threads_shown, first_hunks_shown,
    first_review_comments_shown, first_summaries_shown, general_threads_shown, hunk_header_row,
    hunks_shown, review_header_row, review_shown, ReviewDocument, ReviewSummary,
};
use vstd::prelude::*;

verus! {

/// Whether both ways to show a row, cut to the columns and wrapped in them,
/// show the same text.
pub open spec fn same_text(row: RowView) -> bool {
    match row {
        RowView::Columns { left_cell, right_cell, meta, .. } => left_cell == meta.left_content
            && right_cell == meta.right_content,
        _ => true,
    }
}

/// Whether the input box stands where its placement says: its lines are the
/// rows from its start on, and the cursor is on them.
pub open spec fn placed(ctx: SideBySideContext, s: Sheet) -> bool {
    match s.input {
        Some(p) => {
            let lines = ctx.comment_input.lines@;
            &&& p.box_start + lines.len() <= s.len()
            &&& p.box_end == (if lines.len() == 0 {
                p.box_start as int
            } else {
                p.box_start + lines.len() - 1
            })
            &&& p.cursor_line == p.box_start + ctx.comment_input.line_offset
            &&& p.cursor_column == 1 + ctx.comment_input.column
            &&& forall|k: int|
                #![trigger s.rows[p.box_start + k]]
                0 <= k < lines.len() ==> s.rows[p.box_start + k] == ctx.indicated_rows(
                    lines,
                    p.box_start as int,
                )[k]
        },
        None => true,
    }
}

/// Whether every bar starts at a row of the sheet or right after it.
pub open spec fn bars_inside(s: Sheet) -> bool {
    forall|i: int| 0 <= i < s.bars.len() ==> (#[trigger] s.bars[i]).row <= s.len()
}

/// Whether every row shows the same text in both ways.
pub open spec fn all_same_text(rows: Seq<RowView>) -> bool {
    forall|i: int| 0 <= i < rows.len() ==> same_text(#[trigger] rows[i])
}

/// Whether a row is one of a change block.
pub open spec fn is_change(row: RowView) -> bool {
    row matches RowView::Columns { cut, .. } && cut == Cut::Line
}

/// Whether every row of a change block shows the same text in both ways.
pub open spec fn changes_same_text(rows: Seq<RowView>) -> bool {
    forall|i: int| 0 <= i < rows.len() && is_change(#[trigger] rows[i]) ==> same_text(rows[i])
}

/// Whether a row starts with the indicator of its index, or is blank.
pub open spec fn marks_cursor(ctx: SideBySideContext, at: int, row: RowView) -> bool {
    let glyph = indicator_text(at, ctx.current_line_idx as int)[0];
    match row {
        RowView::Full(row) => row.len() > 0 ==> row[0].0.len() > 0 && row[0].0[0] == glyph,
        RowView::Columns { meta, .. } => meta.left_prefix.len() > 0 && meta.left_prefix[0].0
            == seq![glyph],
        RowView::Gap { on_cursor, .. } => on_cursor == (at == ctx.current_line_idx),
    }
}

/// Whether every row with an index in `owned` starts with the indicator of its
/// index, or is blank.
spec fn marked_at(
    ctx: SideBySideContext,
    rows: Seq<RowView>,
    owned: spec_fn(int) -> bool,
) -> bool {
    forall|i: int|
        0 <= i < rows.len() && owned(i) ==> marks_cursor(ctx, i, #[trigger] rows[i])
}

/// Whether a sheet whose rows can be counted holds what is anchored to it,
/// every row in `owned` starts with its indicator, and every row of a change
/// block, and, where `strict`, every row, shows the same text in both ways.
spec fn sound(ctx: SideBySideContext, s: Sheet, strict: bool, owned: spec_fn(int) -> bool) -> bool {
    &&& s.len() <= usize::MAX ==> placed(ctx, s) && bars_inside(s)
    &&& strict ==> all_same_text(s.rows)
    &&& changes_same_text(s.rows)
    &&& marked_at(ctx, s.rows, owned)
}

proof fn lemma_sound_rows(
    ctx: SideBySideContext,
    s: Sheet,
    more: Seq<RowView>,
    strict: bool,
    owned: spec_fn(int) -> bool,
)
    requires
        sound(ctx, s, strict, owned),
        strict ==> all_same_text(more),
        changes_same_text(more),
        forall|k: int|
            0 <= k < more.len() && owned(s.len() + k) ==> marks_cursor(
                ctx,
                s.len() + k,
                #[trigger] more[k],
            ),
    ensures
        sound(ctx, s.with_rows(more), strict, owned),
{
    let t = s.with_rows(more);
    assert forall|i: int|
        0 <= i < t.rows.len() && (strict || is_change(t.rows[i])) implies same_text(
        #[trigger] t.rows[i],
    ) by {
        if i < s.len() {
            assert(t.rows[i] == s.rows[i]);
        } else {
            assert(t.rows[i] == more[i - s.len()]);
        }
    }
    assert forall|i: int| 0 <= i < t.rows.len() && owned(i) implies marks_cursor(
        ctx,
        i,
        #[trigger] t.rows[i],
    ) by {
        if i < s.len() {
            assert(t.rows[i] == s.rows[i]);
        } else {
            assert(marks_cursor(ctx, s.len() + (i - s.len()), more[i - s.len()]));
        }
    }
}

proof fn lemma_sound_row(
    ctx: SideBySideContext,
    s: Sheet,
    row: RowView,
    strict: bool,
    owned: spec_fn(int) -> bool,
)
    requires
        sound(ctx, s, strict, owned),
        strict || is_change(row) ==> same_text(row),
        owned(s.len()) ==> marks_cursor(ctx, s.len(), row),
    ensures
        sound(ctx, s.with_row(row), strict, owned),
{
    lemma_sound_rows(ctx, s, seq![row], strict, owned);
    assert(s.with_row(row) =~= s.with_rows(seq![row]));
}

proof fn lemma_sound_bar(
    ctx: SideBySideContext,
    s: Sheet,
    row: int,
    range: LineRange,
    strict: bool,
    owned: spec_fn(int) -> bool,
)
    requires
        sound(ctx, s, strict, owned),
        0 <= row <= s.len(),
    ensures
        sound(ctx, s.with_bar(row, range), strict, owned),
{
}

proof fn lemma_sound_input(
    ctx: SideBySideContext,
    s: Sheet,
    annotation_len: int,
    replaced: usize,
    strict: bool,
    owned: spec_fn(int) -> bool,
)
    requires
        sound(ctx, s, strict, owned),
        ctx.wf(),
    ensures
        ctx.input_mode == InputMode::Comment ==> sound(
            ctx,
            ctx.input_shown(s, annotation_len, replaced),
            strict,
            owned,
        ),
{
    let lines = ctx.comment_input.lines@;
    let more = ctx.indicated_rows(lines, s.len());
    lemma_sound_rows(ctx, s, more, strict, owned);
    let t = ctx.input_shown(s, annotation_len, replaced);
    if t.len() <= usize::MAX {
        assert(t.len() == s.len() + lines.len());
        assert forall|k: int|
            #![trigger t.rows[s.len() + k]]
            0 <= k < lines.len() implies t.rows[s.len() + k] == more[k] by {}
    }
}

proof fn lemma_sound_threads(
    ctx: SideBySideContext,
    path: Seq<char>,
    line: u32,
    side: LineSide,
    n: int,
    s: Sheet,
    strict: bool,
    owned: spec_fn(int) -> bool,
)
    requires
        sound(ctx, s, strict, owned),
    ensures
        sound(ctx, first_threads_shown(ctx, path, line, side, n, s), strict, owned),
    decreases n,
{
    if n > 0 {
        lemma_sound_threads(ctx, path, line, side, n - 1, s, strict, owned);
        let t = first_threads_shown(ctx, path, line, side, n - 1, s);
        let thread = ctx.remote_threads@[n - 1];
        if anchored(thread, path, line, side) {
            let more = ctx.indicated_rows(thread.lines@, t.len());
            lemma_sound_rows(ctx, t, more, strict, owned);
            lemma_sound_bar(
                ctx,
                t.with_rows(more),
                t.len(),
                LineRange::of_line(line),
                strict,
                owned,
            );
        }
    }
}

proof fn lemma_sound_box(
    ctx: SideBySideContext,
    s: Sheet,
    comment: Comment,
    strict: bool,
    owned: spec_fn(int) -> bool,
)
    requires
        sound(ctx, s, strict, owned),
    ensures
        sound(ctx, ctx.box_shown(s, comment), strict, owned),
        s.len() <= ctx.box_shown(s, comment).len(),
{
    if ctx.shows_box(s.len(), comment.rows as int) {
        lemma_sound_rows(ctx, s, ctx.indicated_rows(comment.lines@, s.len()), strict, owned);
    } else {
        lemma_sound_rows(ctx, s, blank_rows(comment.rows as int), strict, owned);
    }
}

proof fn lemma_sound_line_input(
    ctx: SideBySideContext,
    line: u32,
    replaced: usize,
    s: Sheet,
    strict: bool,
    owned: spec_fn(int) -> bool,
)
    requires
        sound(ctx, s, strict, owned),
        ctx.wf(),
    ensures
        ctx.input_mode == InputMode::Comment ==> sound(
            ctx,
            line_input_shown(ctx, line, replaced, s),
            strict,
            owned,
        ),
{
    let len = input_box_len(ctx);
    lemma_sound_input(ctx, s, len, replaced, strict, owned);
    if ctx.input_mode == InputMode::Comment {
        lemma_sound_bar(
            ctx,
            ctx.input_shown(s, len, replaced),
            s.len(),
            range_or_line(ctx.comment_line_range, line),
            strict,
            owned,
        );
    }
}

proof fn lemma_sound_comments(
    ctx: SideBySideContext,
    comments: Seq<Comment>,
    line: u32,
    side: LineSide,
    file_idx: int,
    n: int,
    s: Sheet,
    strict: bool,
    owned: spec_fn(int) -> bool,
)
    requires
        sound(ctx, s, strict, owned),
        ctx.wf(),
    ensures
        sound(ctx, first_comments_shown(ctx, comments, line, side, file_idx, n, s), strict, owned),
    decreases n,
{
    if n > 0 {
        lemma_sound_comments(ctx, comments, line, side, file_idx, n - 1, s, strict, owned);
        let t = first_comments_shown(ctx, comments, line, side, file_idx, n - 1, s);
        let comment = comments[n - 1];
        lemma_sound_line_input(ctx, line, comment.rows, t, strict, owned);
        lemma_sound_box(ctx, t, comment, strict, owned);
        lemma_sound_bar(
            ctx,
            ctx.box_shown(t, comment),
            t.len(),
            range_or_line(comment.line_range, line),
            strict,
            owned,
        );
    }
}

proof fn lemma_sound_notes(
    ctx: SideBySideContext,
    file: DiffFile,
    file_idx: int,
    lineno: Option<u32>,
    side: LineSide,
    s: Sheet,
    strict: bool,
    owned: spec_fn(int) -> bool,
)
    requires
        sound(ctx, s, strict, owned),
        ctx.wf(),
    ensures
        sound(ctx, notes_shown(ctx, file, file_idx, lineno, side, s), strict, owned),
{
    if let Some(line) = lineno {
        let comments = comments_at(file.line_comments@, line);
        let n = comments.len() as int;
        lemma_sound_comments(ctx, comments, line, side, file_idx, n, s, strict, owned);
        let t = first_comments_shown(ctx, comments, line, side, file_idx, n, s);
        lemma_sound_line_input(ctx, line, 0, t, strict, owned);
        let u = comments_shown(ctx, file.line_comments@, line, side, file_idx, s);
        lemma_sound_threads(
            ctx,
            file.path@,
            line,
            side,
            ctx.remote_threads@.len() as int,
            u,
            strict,
            owned,
        );
    }
}

/// Whether the context segments of a hunk name context lines.
pub open spec fn names_context(hunk: DiffHunk) -> bool {
    forall|i: int|
        0 <= i < hunk.segments@.len() ==> match #[trigger] hunk.segments@[i] {
            HunkSegment::Context(at) => hunk.lines@[at as int].origin == LineOrigin::Context,
            HunkSegment::ChangeBlock(_) => true,
        }
}

/// A context row shows the same text in both ways.
pub proof fn lemma_context_row_text(ctx: SideBySideContext, dl: DiffLine, row: int)
    requires
        dl.origin == LineOrigin::Context,
    ensures
        same_text(context_row(ctx, dl, row)),
{
}

proof fn lemma_sound_pairs(
    ctx: SideBySideContext,
    file: DiffFile,
    file_idx: int,
    lines: Seq<DiffLine>,
    pairs: Seq<BlockRow>,
    n: int,
    s: Sheet,
    strict: bool,
    owned: spec_fn(int) -> bool,
)
    requires
        sound(ctx, s, strict, owned),
        ctx.wf(),
    ensures
        sound(ctx, first_pairs_shown(ctx, file, file_idx, lines, pairs, n, s), strict, owned),
    decreases n,
{
    if n > 0 {
        lemma_sound_pairs(ctx, file, file_idx, lines, pairs, n - 1, s, strict, owned);
        let t = first_pairs_shown(ctx, file, file_idx, lines, pairs, n - 1, s);
        let deletion = line_at(lines, pairs[n - 1].0);
        let addition = line_at(lines, pairs[n - 1].1);
        let row = culled(ctx, t.len(), change_row(ctx, deletion, addition, t.len()));
        lemma_sound_row(ctx, t, row, strict, owned);
        let u = t.with_row(row);
        let lineno = old_lineno(deletion);
        lemma_sound_notes(ctx, file, file_idx, lineno, LineSide::Old, u, strict, owned);
        let v = notes_shown(ctx, file, file_idx, lineno, LineSide::Old, u);
        lemma_sound_notes(
            ctx,
            file,
            file_idx,
            new_lineno(addition),
            LineSide::New,
            v,
            strict,
            owned,
        );
    }
}

proof fn lemma_sound_segments(
    ctx: SideBySideContext,
    file: DiffFile,
    file_idx: int,
    hunk: DiffHunk,
    n: int,
    s: Sheet,
    strict: bool,
    owned: spec_fn(int) -> bool,
)
    requires
        sound(ctx, s, strict, owned),
        ctx.wf(),
        strict ==> names_context(hunk),
        n <= hunk.segments@.len(),
    ensures
        sound(ctx, first_segments_shown(ctx, file, file_idx, hunk, n, s), strict, owned),
    decreases n,
{
    if n > 0 {
        lemma_sound_segments(ctx, file, file_idx, hunk, n - 1, s, strict, owned);
        let t = first_segments_shown(ctx, file, file_idx, hunk, n - 1, s);
        match hunk.segments@[n - 1] {
            HunkSegment::Context(at) => {
                let dl = hunk.lines@[at as int];
                if strict {
                    lemma_context_row_text(ctx, dl, t.len());
                }
                let prose = culled(ctx, t.len(), message_row(ctx, dl, t.len()));
                lemma_sound_row(ctx, t, prose, strict, owned);
                lemma_sound_notes(
                    ctx,
                    file,
                    file_idx,
                    dl.new_lineno,
                    LineSide::New,
                    t.with_row(prose),
                    strict,
                    owned,
                );
                let code = culled(ctx, t.len(), context_row(ctx, dl, t.len()));
                lemma_sound_row(ctx, t, code, strict, owned);
                lemma_sound_notes(
                    ctx,
                    file,
                    file_idx,
                    dl.new_lineno,
                    LineSide::New,
                    t.with_row(code),
                    strict,
                    owned,
                );
            },
            HunkSegment::ChangeBlock(block) => {
                lemma_sound_pairs(
                    ctx,
                    file,
                    file_idx,
                    hunk.lines@,
                    block.paired(),
                    block.row_count(),
                    t,
                    strict,
                    owned,
                );
            },
        }
    }
}

proof fn lemma_sound_gap(
    ctx: SideBySideContext,
    expanded: ExpandedLines,
    stubs: Seq<GapStub>,
    remaining: usize,
    cull: bool,
    s: Sheet,
    strict: bool,
    owned: spec_fn(int) -> bool,
)
    requires
        sound(ctx, s, strict, owned),
    ensures
        sound(ctx, gap_rows_shown(ctx, expanded, stubs, remaining, cull, s), strict, owned),
{
    let a = expanded_rows(ctx, expanded.top@, cull, s.len());
    lemma_sound_rows(ctx, s, a, strict, owned);
    let t = s.with_rows(a);
    let b = stub_rows(ctx, stubs, remaining, t.len());
    lemma_sound_rows(ctx, t, b, strict, owned);
    let u = t.with_rows(b);
    lemma_sound_rows(ctx, u, expanded_rows(ctx, expanded.bottom@, cull, u.len()), strict, owned);
}

proof fn lemma_sound_hunks(
    ctx: SideBySideContext,
    file: DiffFile,
    file_idx: int,
    n: int,
    s: Sheet,
    strict: bool,
    owned: spec_fn(int) -> bool,
)
    requires
        sound(ctx, s, strict, owned),
        ctx.wf(),
        n <= file.hunks@.len(),
        strict ==> forall|i: int| 0 <= i < file.hunks@.len() ==> names_context(
            #[trigger] file.hunks@[i],
        ),
    ensures
        sound(ctx, first_hunks_shown(ctx, file, file_idx, n, s), strict, owned),
    decreases n,
{
    if n > 0 {
        lemma_sound_hunks(ctx, file, file_idx, n - 1, s, strict, owned);
        let t = first_hunks_shown(ctx, file, file_idx, n - 1, s);
        let hunk = file.hunks@[n - 1];
        let remaining = remaining_lines(hunk.gap_before as int, hunk.expanded);
        lemma_sound_gap(
            ctx,
            hunk.expanded,
            stubs_above(remaining, n == 1, ctx.gap_expand_batch as int),
            remaining as usize,
            true,
            t,
            strict,
            owned,
        );
        let u = gap_shown(ctx, hunk, n == 1, t);
        let header = hunk_header_row(ctx, hunk, u.len());
        lemma_sound_row(ctx, u, header, strict, owned);
        lemma_sound_segments(
            ctx,
            file,
            file_idx,
            hunk,
            hunk.segments@.len() as int,
            u.with_row(header),
            strict,
            owned,
        );
    }
}

proof fn lemma_sound_boxed(
    ctx: SideBySideContext,
    comment: Comment,
    writing: bool,
    s: Sheet,
    strict: bool,
    owned: spec_fn(int) -> bool,
)
    requires
        sound(ctx, s, strict, owned),
        ctx.wf(),
        writing ==> ctx.input_mode == InputMode::Comment,
    ensures
        sound(ctx, boxed_comment_shown(ctx, comment, writing, s), strict, owned),
{
    lemma_sound_input(ctx, s, ctx.comment_input.lines@.len() as int, comment.rows, strict, owned);
    lemma_sound_box(ctx, s, comment, strict, owned);
}

proof fn lemma_sound_file_comments(
    ctx: SideBySideContext,
    comments: Seq<Comment>,
    writing: bool,
    n: int,
    s: Sheet,
    strict: bool,
    owned: spec_fn(int) -> bool,
)
    requires
        sound(ctx, s, strict, owned),
        ctx.wf(),
        writing ==> ctx.input_mode == InputMode::Comment,
    ensures
        sound(ctx, first_file_comments_shown(ctx, comments, writing, n, s), strict, owned),
    decreases n,
{
    if n > 0 {
        lemma_sound_file_comments(ctx, comments, writing, n - 1, s, strict, owned);
        lemma_sound_boxed(
            ctx,
            comments[n - 1],
            writing,
            first_file_comments_shown(ctx, comments, writing, n - 1, s),
            strict,
            owned,
        );
    }
}

/// Whether the context segments of every hunk of a file name context lines.
pub open spec fn file_names_context(file: DiffFile) -> bool {
    forall|i: int| 0 <= i < file.hunks@.len() ==> names_context(#[trigger] file.hunks@[i])
}

proof fn lemma_sound_file_body(
    ctx: SideBySideContext,
    file: DiffFile,
    file_idx: int,
    s: Sheet,
    strict: bool,
    owned: spec_fn(int) -> bool,
)
    requires
        sound(ctx, s, strict, owned),
        ctx.wf(),
        strict ==> file_names_context(file),
    ensures
        sound(ctx, file_body_shown(ctx, file, file_idx, s), strict, owned),
{
    let banner = banner_row(ctx, s.len());
    lemma_sound_row(ctx, s, banner, strict, owned);
    let a = if file.is_reviewed && ctx.is_single_file_view {
        s.with_row(banner)
    } else {
        s
    };
    let writing = ctx.writes_file_comment(file_idx);
    let n = file.file_comments@.len() as int;
    lemma_sound_file_comments(ctx, file.file_comments@, writing, n, a, strict, owned);
    let b = first_file_comments_shown(ctx, file.file_comments@, writing, n, a);
    lemma_sound_input(ctx, b, ctx.comment_input.lines@.len() as int, 0, strict, owned);
    let c = file_comments_shown(ctx, file, file_idx, a);
    lemma_sound_row(
        ctx,
        c,
        empty_label_row(ctx, file, c.len()),
        strict,
        owned,
    );
    lemma_sound_hunks(ctx, file, file_idx, file.hunks@.len() as int, c, strict, owned);
    let d = hunks_shown(ctx, file, file_idx, c);
    let remaining = remaining_lines(
        file.line_count->0 - file.end_start() + 1,
        file.expanded_end,
    );
    lemma_sound_gap(
        ctx,
        file.expanded_end,
        stubs_at_end(remaining, ctx.gap_expand_batch as int),
        remaining as usize,
        false,
        d,
        strict,
        owned,
    );
    let e = end_gap_shown(ctx, file, d);
    lemma_sound_row(ctx, e, RowView::Full(ctx.indicator(e.len())), strict, owned);
}

proof fn lemma_sound_files(
    ctx: SideBySideContext,
    files: Seq<DiffFile>,
    n: int,
    s: Sheet,
    strict: bool,
    owned: spec_fn(int) -> bool,
)
    requires
        sound(ctx, s, strict, owned),
        ctx.wf(),
        n <= files.len(),
        strict ==> forall|i: int| 0 <= i < files.len() ==> file_names_context(
            #[trigger] files[i],
        ),
    ensures
        sound(ctx, first_files_shown(ctx, files, n, s), strict, owned),
    decreases n,
{
    if n > 0 {
        lemma_sound_files(ctx, files, n - 1, s, strict, owned);
        let t = first_files_shown(ctx, files, n - 1, s);
        let file = files[n - 1];
        let header = file_header_row(ctx, file, t.len());
        lemma_sound_row(ctx, t, header, strict, owned);
        lemma_sound_file_body(ctx, file, n - 1, t, strict, owned);
        lemma_sound_file_body(ctx, file, n - 1, t.with_row(header), strict, owned);
    }
}

proof fn lemma_sound_summaries(
    ctx: SideBySideContext,
    summaries: Seq<ReviewSummary>,
    n: int,
    s: Sheet,
    strict: bool,
    owned: spec_fn(int) -> bool,
)
    requires
        sound(ctx, s, strict, owned),
    ensures
        sound(ctx, first_summaries_shown(ctx, summaries, n, s), strict, owned),
    decreases n,
{
    if n > 0 {
        lemma_sound_summaries(ctx, summaries, n - 1, s, strict, owned);
        let t = first_summaries_shown(ctx, summaries, n - 1, s);
        lemma_sound_rows(
            ctx,
            t,
            ctx.indicated_rows(summaries[n - 1].lines@, t.len()),
            strict,
            owned,
        );
    }
}

proof fn lemma_sound_review_comments(
    ctx: SideBySideContext,
    comments: Seq<Comment>,
    n: int,
    s: Sheet,
    strict: bool,
    owned: spec_fn(int) -> bool,
)
    requires
        sound(ctx, s, strict, owned),
        ctx.wf(),
    ensures
        sound(ctx, first_review_comments_shown(ctx, comments, n, s), strict, owned),
    decreases n,
{
    if n > 0 {
        lemma_sound_review_comments(ctx, comments, n - 1, s, strict, owned);
        lemma_sound_boxed(
            ctx,
            comments[n - 1],
            ctx.writes_review_comment(),
            first_review_comments_shown(ctx, comments, n - 1, s),
            strict,
            owned,
        );
    }
}

proof fn lemma_sound_general_threads(
    ctx: SideBySideContext,
    n: int,
    s: Sheet,
    strict: bool,
    owned: spec_fn(int) -> bool,
)
    requires
        sound(ctx, s, strict, owned),
    ensures
        sound(ctx, first_general_threads_shown(ctx, n, s), strict, owned),
    decreases n,
{
    if n > 0 {
        lemma_sound_general_threads(ctx, n - 1, s, strict, owned);
        let t = first_general_threads_shown(ctx, n - 1, s);
        lemma_sound_rows(
            ctx,
            t,
            ctx.indicated_rows(ctx.remote_threads@[n - 1].lines@, t.len()),
            strict,
            owned,
        );
    }
}

proof fn lemma_sound_review(
    ctx: SideBySideContext,
    doc: ReviewDocument,
    s: Sheet,
    strict: bool,
    owned: spec_fn(int) -> bool,
)
    requires
        sound(ctx, s, strict, owned),
        ctx.wf(),
        forall|i: int| s.len() <= i < s.len() + doc.pr_info@.len() ==> !#[trigger] owned(i),
    ensures
        sound(ctx, review_shown(ctx, doc, s), strict, owned),
{
    let info = finished_rows(doc.pr_info@);
    lemma_sound_rows(ctx, s, info, strict, owned);
    let a = s.with_rows(info);
    let header = review_header_row(ctx, a.len());
    lemma_sound_row(ctx, a, header, strict, owned);
    let b = if doc.shows_review_comments_header {
        a.with_row(header)
    } else {
        a
    };
    let n = doc.review_summaries@.len() as int;
    lemma_sound_summaries(ctx, doc.review_summaries@, n, b, strict, owned);
    let c = first_summaries_shown(ctx, doc.review_summaries@, n, b);
    let m = doc.review_comments@.len() as int;
    lemma_sound_review_comments(ctx, doc.review_comments@, m, c, strict, owned);
    let d = first_review_comments_shown(ctx, doc.review_comments@, m, c);
    lemma_sound_general_threads(ctx, ctx.remote_threads@.len() as int, d, strict, owned);
    let e = general_threads_shown(ctx, d);
    lemma_sound_input(ctx, e, ctx.comment_input.lines@.len() as int, 0, strict, owned);
}

/// The index of a document's first row about its discussion.
pub open spec fn discussion_top(ctx: SideBySideContext, doc: ReviewDocument) -> int {
    review_shown(ctx, doc, Sheet::empty()).len()
}

/// The rows of a document that were not finished before.
pub open spec fn built_row(ctx: SideBySideContext, doc: ReviewDocument, at: int) -> bool {
    &&& doc.pr_info@.len() <= at
    &&& !(discussion_top(ctx, doc) <= at < discussion_top(ctx, doc) + doc.issue_comments@.len())
}

proof fn lemma_sound_document(ctx: SideBySideContext, doc: ReviewDocument, strict: bool)
    requires
        ctx.wf(),
        strict ==> document_names_context(doc),
    ensures
        sound(ctx, document_sheet(ctx, doc), strict, |at: int| built_row(ctx, doc, at)),
{
    let owned = |at: int| built_row(ctx, doc, at);
    lemma_sound_review(ctx, doc, Sheet::empty(), strict, owned);
    let s = review_shown(ctx, doc, Sheet::empty());
    let issues = finished_rows(doc.issue_comments@);
    lemma_sound_rows(ctx, s, issues, strict, owned);
    lemma_sound_files(
        ctx,
        doc.files@,
        doc.files@.len() as int,
        s.with_rows(issues),
        strict,
        owned,
    );
}

/// Whether the context segments of every hunk of a document name context
/// lines.
pub open spec fn document_names_context(doc: ReviewDocument) -> bool {
    forall|i: int| 0 <= i < doc.files@.len() ==> file_names_context(#[trigger] doc.files@[i])
}

/// The input box of a comment stands where its placement says, and every
/// comment bar starts at a row of the document or right after it.
pub proof fn lemma_anchors_hold(ctx: SideBySideContext, doc: ReviewDocument)
    requires
        ctx.wf(),
        document_sheet(ctx, doc).len() <= usize::MAX,
    ensures
        placed(ctx, document_sheet(ctx, doc)),
        bars_inside(document_sheet(ctx, doc)),
{
    lemma_sound_document(ctx, doc, false);
}

/// Every row of a document shows the same text, in the same styles, whether
/// lines wrap or not.
pub proof fn lemma_both_paths_mark_the_same(ctx: SideBySideContext, doc: ReviewDocument)
    requires
        ctx.wf(),
        document_names_context(doc),
    ensures
        all_same_text(document_sheet(ctx, doc).rows),
{
    lemma_sound_document(ctx, doc, true);
}

/// Every row of a change block shows the same text, in the same styles, whether
/// lines wrap or not, so both ways mark the same characters of a line pair.
pub proof fn lemma_change_rows_mark_the_same(ctx: SideBySideContext, doc: ReviewDocument)
    requires
        ctx.wf(),
    ensures
        changes_same_text(document_sheet(ctx, doc).rows),
{
    lemma_sound_document(ctx, doc, false);
}

/// The indicator marks the row under the cursor and no other: every row that
/// was not finished before starts with the indicator of its index, or is blank.
pub proof fn lemma_indicator_marks_the_cursor(ctx: SideBySideContext, doc: ReviewDocument)
    requires
        ctx.wf(),
    ensures
        forall|i: int|
            0 <= i < document_sheet(ctx, doc).len() && built_row(ctx, doc, i) ==> marks_cursor(
                ctx,
                i,
                #[trigger] document_sheet(ctx, doc).rows[i],
            ),
{
    lemma_sound_document(ctx, doc, false);
}

/// Whether the rows from `from` on span the full width.
spec fn full_from(s: Sheet, from: int) -> bool {
    forall|i: int| 0 <= i && from <= i < s.len() ==> (#[trigger] s.rows[i]) is Full
}

proof fn lemma_full_rows(s: Sheet, more: Seq<RowView>, from: int)
    requires
        full_from(s, from),
        forall|i: int| 0 <= i < more.len() ==> (#[trigger] more[i]) is Full,
    ensures
        full_from(s.with_rows(more), from),
{
    let t = s.with_rows(more);
    assert forall|i: int| 0 <= i && from <= i < t.len() implies (#[trigger] t.rows[i]) is Full by {
        if i < s.len() {
            assert(t.rows[i] == s.rows[i]);
        } else {
            assert(t.rows[i] == more[i - s.len()]);
        }
    }
}

proof fn lemma_full_comments(
    ctx: SideBySideContext,
    comments: Seq<Comment>,
    line: u32,
    side: LineSide,
    file_idx: int,
    n: int,
    s: Sheet,
    from: int,
)
    requires
        full_from(s, from),
    ensures
        full_from(first_comments_shown(ctx, comments, line, side, file_idx, n, s), from),
    decreases n,
{
    if n > 0 {
        lemma_full_comments(ctx, comments, line, side, file_idx, n - 1, s, from);
        let t = first_comments_shown(ctx, comments, line, side, file_idx, n - 1, s);
        let comment = comments[n - 1];
        lemma_full_rows(t, ctx.indicated_rows(ctx.comment_input.lines@, t.len()), from);
        lemma_full_rows(t, ctx.indicated_rows(comment.lines@, t.len()), from);
        lemma_full_rows(t, blank_rows(comment.rows as int), from);
    }
}

proof fn lemma_full_threads(
    ctx: SideBySideContext,
    path: Seq<char>,
    line: u32,
    side: LineSide,
    n: int,
    s: Sheet,
    from: int,
)
    requires
        full_from(s, from),
    ensures
        full_from(first_threads_shown(ctx, path, line, side, n, s), from),
    decreases n,
{
    if n > 0 {
        lemma_full_threads(ctx, path, line, side, n - 1, s, from);
        let t = first_threads_shown(ctx, path, line, side, n - 1, s);
        lemma_full_rows(
            t,
            ctx.indicated_rows(ctx.remote_threads@[n - 1].lines@, t.len()),
            from,
        );
    }
}

/// A commit message is prose: none of its lines is split into columns, so it
/// wraps at full width.
pub proof fn lemma_commit_message_spans_the_width(
    ctx: SideBySideContext,
    file: DiffFile,
    file_idx: int,
    hunk: DiffHunk,
    n: int,
    s: Sheet,
)
    requires
        file.is_commit_message,
        n <= hunk.segments@.len(),
        forall|i: int|
            0 <= i < hunk.segments@.len() ==> (#[trigger] hunk.segments@[i]) is Context,
    ensures
        forall|i: int|
            s.len() <= i < first_segments_shown(ctx, file, file_idx, hunk, n, s).len() ==> (
            #[trigger] first_segments_shown(ctx, file, file_idx, hunk, n, s).rows[i]) is Full,
    decreases n,
{
    if n > 0 {
        lemma_commit_message_spans_the_width(ctx, file, file_idx, hunk, n - 1, s);
        let t = first_segments_shown(ctx, file, file_idx, hunk, n - 1, s);
        assert(full_from(t, s.len()));
        let dl = hunk.lines@[hunk.segments@[n - 1]->Context_0 as int];
        let row = culled(ctx, t.len(), message_row(ctx, dl, t.len()));
        lemma_full_rows(t, seq![row], s.len());
        assert(t.with_row(row) =~= t.with_rows(seq![row]));
        let u = t.with_row(row);
        if let Some(line) = dl.new_lineno {
            let comments = comments_at(file.line_comments@, line);
            let m = comments.len() as int;
            lemma_full_comments(
                ctx,
                comments,
                line,
                LineSide::New,
                file_idx,
                m,
                u,
                s.len(),
            );
            let v = first_comments_shown(ctx, comments, line, LineSide::New, file_idx, m, u);
            lemma_full_rows(
                v,
                ctx.indicated_rows(ctx.comment_input.lines@, v.len()),
                s.len(),
            );
            lemma_full_threads(
                ctx,
                file.path@,
                line,
                LineSide::New,
                ctx.remote_threads@.len() as int,
                comments_shown(ctx, file.line_comments@, line, LineSide::New, file_idx, u),
                s.len(),
            );
        }
        assert(full_from(first_segments_shown(ctx, file, file_idx, hunk, n, s), s.len()));
    }
}

} // verus!
