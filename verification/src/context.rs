//! How a side-by-side diff is shown: the viewport, the cursor, the search, and
//! the comment that is being written.

use crate::gutter::{blanks, cursor_indicator, cursor_indicator_spaced, indicator_text};
use crate::model::{Comment, CommentInput, LineRange, LineSide, RemoteReviewThread};
use crate::rows::{blank_rows, InputPlacement, RowView, Sheet, SideBySideRows};
use crate::style::{extend_spans, push_text, runs, Line, Run, Span, Style};
use crate::theme::Theme;
use crate::word_diff::DiffWhitespaceMode;
use std::collections::HashSet;
use vstd::prelude::*;

verus! {

/// Whether a comment is being written.
#[derive(Clone, Copy, Debug, PartialEq, Eq, Structural)]
pub enum InputMode {
    Normal,
    Comment,
}

/// The fixed texts of header rows.
#[derive(Debug)]
pub struct Labels {
    pub review_comments_header: String,
    pub header_rule: String,
    pub reviewed_banner: String,
}

/// Context for rendering side-by-side diff lines.
#[derive(Debug)]
pub struct SideBySideContext {
    pub theme: Theme,
    pub labels: Labels,
    pub current_line_idx: usize,
    pub lineno_width: usize,
    pub relative_line_numbers: bool,
    pub is_single_file_view: bool,
    pub current_file_idx: usize,
    /// Comment input state for inline editing.
    pub input_mode: InputMode,
    pub comment_is_file_level: bool,
    pub comment_is_review_level: bool,
    pub comment_line: Option<(u32, LineSide)>,
    pub comment_line_range: Option<LineRange>,
    pub editing_comment_id: Option<String>,
    pub comment_input: CommentInput,
    /// Only diff lines whose row falls in this half-open range are built;
    /// rows outside it hold their place.
    pub visible_start: usize,
    pub visible_end: usize,
    /// The rows on which search matches are painted.
    pub search_rows: HashSet<usize>,
    pub word_diff: bool,
    pub whitespace_mode: DiffWhitespaceMode,
    /// How many hidden lines one expansion shows.
    pub gap_expand_batch: usize,
    /// Whether lines after a file's last hunk can be asked for.
    pub shows_end_gaps: bool,
    /// Whether the threads of the remote review are hidden.
    pub hides_remote_comments: bool,
    pub remote_threads: Vec<RemoteReviewThread>,
}

impl SideBySideContext {
    /// Whether the input box of a comment that is being written can be placed.
    pub open spec fn wf(self) -> bool {
        self.input_mode == InputMode::Comment ==> self.comment_input.wf()
    }

    /// Whether the input box of a comment that is being written can be placed.
    pub fn is_wf(&self) -> (yes: bool)
        ensures
            yes == self.wf(),
    {
        self.input_mode != InputMode::Comment || self.comment_input.is_wf()
    }

    /// Whether a row lies in the viewport.
    pub open spec fn visible(self, row: int) -> bool {
        self.visible_start <= row < self.visible_end
    }

    /// Whether any of the `rows` rows from `top` on lies in the viewport.
    pub open spec fn shows_box(self, top: int, rows: int) -> bool {
        top < self.visible_end && top + rows > self.visible_start
    }

    /// The style of search matches on a row, where they are painted.
    pub open spec fn search_style(self, row: int) -> Option<Style> {
        if self.search_rows@.contains(row as usize) {
            Some(self.theme.search_match_style)
        } else {
            None
        }
    }

    /// The number shown for a line: its own, or its distance from the cursor.
    pub open spec fn lineno(self, source_line: Option<u32>, row: int) -> Option<u32> {
        match source_line {
            Some(line) => Some(
                if self.relative_line_numbers {
                    (if row < self.current_line_idx {
                        self.current_line_idx - row
                    } else {
                        row - self.current_line_idx
                    }) as u32
                } else {
                    line
                },
            ),
            None => None,
        }
    }

    /// The indicator of a row.
    pub open spec fn indicator(self, row: int) -> Seq<Run> {
        seq![
            (
                indicator_text(row, self.current_line_idx as int),
                self.theme.current_line_indicator_style,
            ),
        ]
    }

    /// The indicator of a row with a space after it.
    pub open spec fn indicator_spaced(self, row: int) -> Seq<Run> {
        seq![
            (
                indicator_text(row, self.current_line_idx as int) + blanks(1),
                self.theme.current_line_indicator_style,
            ),
        ]
    }

    /// Whether a comment on lines is being written.
    pub open spec fn writes_line_comment(self) -> bool {
        self.input_mode == InputMode::Comment && !self.comment_is_file_level
            && !self.comment_is_review_level
    }

    /// Whether a comment on the review as a whole is being written.
    pub open spec fn writes_review_comment(self) -> bool {
        self.input_mode == InputMode::Comment && self.comment_is_review_level
    }

    /// Whether a comment on the file is being written.
    pub open spec fn writes_file_comment(self, file_idx: int) -> bool {
        self.input_mode == InputMode::Comment && self.comment_is_file_level && file_idx
            == self.current_file_idx
    }

    /// Whether `comment` is the one that is being edited.
    pub open spec fn edits(self, comment: Comment) -> bool {
        match self.editing_comment_id {
            Some(id) => id@ == comment.id@,
            None => false,
        }
    }

    /// Whether a row lies in the viewport.
    pub fn is_visible(&self, row: usize) -> (yes: bool)
        ensures
            yes == self.visible(row as int),
    {
        row >= self.visible_start && row < self.visible_end
    }

    /// Same question for a multi-row comment box: does any of it land on
    /// screen?
    pub fn box_visible(&self, top: usize, rows: usize) -> (yes: bool)
        ensures
            yes == self.shows_box(top as int, rows as int),
    {
        top < self.visible_end && (top > self.visible_start || rows > self.visible_start - top)
    }

    /// The style of search matches on a row, where they are painted.
    pub fn search_for(&self, row: usize) -> (style: Option<Style>)
        ensures
            style == self.search_style(row as int),
    {
        broadcast use vstd::std_specs::hash::group_hash_axioms;

        if self.search_rows.contains(&row) {
            Some(self.theme.search_match_style)
        } else {
            None
        }
    }

    /// The number shown for a line: its own, or its distance from the cursor.
    pub fn display_lineno(&self, source_line: Option<u32>, row: usize) -> (shown: Option<u32>)
        ensures
            shown == self.lineno(source_line, row as int),
    {
        match source_line {
            Some(line) => {
                if self.relative_line_numbers {
                    let distance: usize = if row < self.current_line_idx {
                        self.current_line_idx - row
                    } else {
                        row - self.current_line_idx
                    };
                    Some(distance as u32)
                } else {
                    Some(line)
                }
            },
            None => None,
        }
    }

    /// Whether a comment on lines is being written.
    pub fn is_writing_line_comment(&self) -> (yes: bool)
        ensures
            yes == self.writes_line_comment(),
    {
        self.input_mode == InputMode::Comment && !self.comment_is_file_level
            && !self.comment_is_review_level
    }

    /// Whether a comment on the review as a whole is being written.
    pub fn is_writing_review_comment(&self) -> (yes: bool)
        ensures
            yes == self.writes_review_comment(),
    {
        self.input_mode == InputMode::Comment && self.comment_is_review_level
    }

    /// Whether a comment on the file is being written.
    pub fn is_writing_file_comment(&self, file_idx: usize) -> (yes: bool)
        ensures
            yes == self.writes_file_comment(file_idx as int),
    {
        self.input_mode == InputMode::Comment && self.comment_is_file_level && file_idx
            == self.current_file_idx
    }

    /// Whether `comment` is the one that is being edited.
    pub fn is_edited(&self, comment: &Comment) -> (yes: bool)
        ensures
            yes == self.edits(*comment),
    {
        match &self.editing_comment_id {
            Some(id) => *id == comment.id,
            None => false,
        }
    }

    /// The spans of a row's indicator.
    pub fn indicator_spans(&self, row: usize) -> (spans: Vec<Span>)
        ensures
            runs(spans@) == self.indicator(row as int),
    {
        let mut spans: Vec<Span> = Vec::new();
        push_text(
            &mut spans,
            cursor_indicator(row, self.current_line_idx),
            self.theme.current_line_indicator_style,
        );
        assert(runs(spans@) =~= self.indicator(row as int));
        spans
    }

    /// The spans of a row's indicator and a space.
    pub fn indicator_spaced_spans(&self, row: usize) -> (spans: Vec<Span>)
        ensures
            runs(spans@) == self.indicator_spaced(row as int),
    {
        let mut spans: Vec<Span> = Vec::new();
        push_text(
            &mut spans,
            cursor_indicator_spaced(row, self.current_line_idx),
            self.theme.current_line_indicator_style,
        );
        assert(runs(spans@) =~= self.indicator_spaced(row as int));
        spans
    }

    /// The rows of formatted lines, each behind the indicator of its row.
    pub open spec fn indicated_rows(self, lines: Seq<Line>, top: int) -> Seq<RowView> {
        Seq::new(
            lines.len(),
            |k: int| RowView::Full(self.indicator(top + k) + runs(lines[k].spans@)),
        )
    }

    /// Append formatted lines, each behind the indicator of its row.
    pub fn push_lines(&self, lines: &Vec<Line>, out: &mut SideBySideRows)
        ensures
            final(out)@ == old(out)@.with_rows(self.indicated_rows(lines@, old(out)@.len())),
    {
        let ghost more = self.indicated_rows(lines@, old(out)@.len());
        let mut k: usize = 0;
        assert(out@ =~= old(out)@.with_rows(more.take(0)));
        while k < lines.len()
            invariant
                k <= lines.len(),
                more == self.indicated_rows(lines@, old(out)@.len()),
                out@ == old(out)@.with_rows(more.take(k as int)),
            decreases lines.len() - k,
        {
            let mut spans = self.indicator_spans(out.rows.len());
            extend_spans(&mut spans, &lines[k].spans);
            out.push_full(spans);
            k = k + 1;
            assert(out@ =~= old(out)@.with_rows(more.take(k as int)));
        }
        assert(more.take(k as int) =~= more);
    }

    /// Where the input box lands when it starts at row `top`.
    pub open spec fn placement(
        self,
        top: int,
        annotation_len: int,
        replaced: usize,
    ) -> InputPlacement {
        InputPlacement {
            cursor_line: (top + self.comment_input.line_offset) as usize,
            cursor_column: (1 + self.comment_input.column) as u16,
            box_start: top as usize,
            box_end: if self.comment_input.lines@.len() == 0 {
                top as usize
            } else {
                (top + self.comment_input.lines@.len() - 1) as usize
            },
            annotation_len: annotation_len as usize,
            annotations_replaced: replaced,
        }
    }

    /// The sheet with the input box after its rows.
    pub open spec fn input_shown(self, s: Sheet, annotation_len: int, replaced: usize) -> Sheet {
        s.with_rows(self.indicated_rows(self.comment_input.lines@, s.len())).with_input(
            self.placement(s.len(), annotation_len, replaced),
        )
    }

    /// Append the input box.
    pub fn push_input(&self, annotation_len: usize, replaced: usize, out: &mut SideBySideRows)
        requires
            self.wf(),
            self.input_mode == InputMode::Comment,
        ensures
            final(out)@ == self.input_shown(old(out)@, annotation_len as int, replaced),
    {
        let top: usize = out.rows.len();
        let len: usize = self.comment_input.lines.len();
        self.push_lines(&self.comment_input.lines, out);
        let _bottom: usize = out.rows.len();
        assert(out@.rows.len() == top + len);
        let box_end: usize = if len == 0 {
            top
        } else {
            top + (len - 1)
        };
        out.input = Some(
            InputPlacement {
                cursor_line: top + self.comment_input.line_offset,
                cursor_column: 1 + self.comment_input.column,
                box_start: top,
                box_end,
                annotation_len,
                annotations_replaced: replaced,
            },
        );
        assert(out@ =~= self.input_shown(old(out)@, annotation_len as int, replaced));
    }

    /// The sheet with a comment's box after its rows; outside the viewport its
    /// rows are blank.
    pub open spec fn box_shown(self, s: Sheet, comment: Comment) -> Sheet {
        if self.shows_box(s.len(), comment.rows as int) {
            s.with_rows(self.indicated_rows(comment.lines@, s.len()))
        } else {
            s.with_rows(blank_rows(comment.rows as int))
        }
    }

    /// Append a comment's box.
    pub fn push_box(&self, comment: &Comment, out: &mut SideBySideRows)
        ensures
            final(out)@ == self.box_shown(old(out)@, *comment),
    {
        if self.box_visible(out.rows.len(), comment.rows) {
            self.push_lines(&comment.lines, out);
        } else {
            out.skip_comment_box(comment.rows);
        }
    }
}

} // verus!
