//! What a review shows: diff lines, hunks and files, comments on them, and
//! the threads of a remote review.

use crate::style::{Line, Style};
use std::collections::HashMap;
use std::ops::Range;
use vstd::prelude::*;

verus! {

/// Where a diff line comes from.
#[derive(Clone, Copy, Debug, PartialEq, Eq, Structural)]
pub enum LineOrigin {
    Context,
    Addition,
    Deletion,
}

/// The side of a diff that a comment is anchored to.
#[derive(Clone, Copy, Debug, PartialEq, Eq, Structural)]
pub enum LineSide {
    Old,
    New,
}

/// The lines that a comment speaks of, both ends included.
#[derive(Clone, Copy, Debug, PartialEq, Eq, Structural)]
pub struct LineRange {
    pub start: u32,
    pub end: u32,
}

impl LineRange {
    /// The range of one line.
    pub open spec fn of_line(line: u32) -> LineRange {
        LineRange { start: line, end: line }
    }

    /// The range of one line.
    pub fn single(line: u32) -> (range: LineRange)
        ensures
            range == LineRange::of_line(line),
    {
        LineRange { start: line, end: line }
    }
}

/// A line of a diff.
#[derive(Debug)]
pub struct DiffLine {
    pub origin: LineOrigin,
    pub content: String,
    pub old_lineno: Option<u32>,
    pub new_lineno: Option<u32>,
    /// The content in syntax colors, where it was highlighted.
    pub highlighted_spans: Option<Vec<(Style, String)>>,
    /// The byte ranges of the content that the search in progress matches.
    pub search_matches: Vec<Range<usize>>,
}

/// A run of deleted and added lines, as indices into the hunk's lines.
#[derive(Debug)]
pub struct ChangeBlock {
    pub deletions: Vec<usize>,
    pub additions: Vec<usize>,
}

/// A row of a change block: the deleted and the added line on it.
pub type BlockRow = (Option<usize>, Option<usize>);

/// The item with index `i`, where there is one.
pub open spec fn item(items: Seq<usize>, i: int) -> Option<usize> {
    if 0 <= i < items.len() {
        Some(items[i])
    } else {
        None
    }
}

/// Whether every item is below `len`.
fn all_below(items: &Vec<usize>, len: usize) -> (yes: bool)
    ensures
        yes == forall|i: int| 0 <= i < items@.len() ==> #[trigger] items@[i] < len,
{
    let mut i: usize = 0;
    while i < items.len()
        invariant
            i <= items.len(),
            forall|j: int| 0 <= j < i ==> #[trigger] items@[j] < len,
        decreases items.len() - i,
    {
        if items[i] >= len {
            return false;
        }
        i = i + 1;
    }
    true
}

impl ChangeBlock {
    /// How many rows the block takes: as many as its longer side.
    pub open spec fn row_count(self) -> int {
        if self.deletions@.len() >= self.additions@.len() {
            self.deletions@.len() as int
        } else {
            self.additions@.len() as int
        }
    }

    /// The rows of the block: lines are paired by position, and the longer
    /// side's tail stands alone.
    pub open spec fn paired(self) -> Seq<BlockRow> {
        Seq::new(
            self.row_count() as nat,
            |i: int| (item(self.deletions@, i), item(self.additions@, i)),
        )
    }

    /// Whether every line of the block is one of `len` lines.
    pub open spec fn inside(self, len: nat) -> bool {
        &&& forall|i: int| 0 <= i < self.deletions@.len() ==> #[trigger] self.deletions@[i] < len
        &&& forall|i: int| 0 <= i < self.additions@.len() ==> #[trigger] self.additions@[i] < len
    }

    /// Whether every line of the block is one of `len` lines.
    pub fn is_inside(&self, len: usize) -> (yes: bool)
        ensures
            yes == self.inside(len as nat),
    {
        all_below(&self.deletions, len) && all_below(&self.additions, len)
    }

    /// The rows of the block, each line pair on one row and then the unpaired
    /// tail.
    pub fn rows(&self) -> (rows: Vec<BlockRow>)
        ensures
            rows@ == self.paired(),
    {
        let mut rows: Vec<BlockRow> = Vec::new();
        let mut i: usize = 0;
        while i < self.deletions.len() || i < self.additions.len()
            invariant
                0 <= i <= self.row_count(),
                rows@ == self.paired().take(i as int),
            decreases self.row_count() - i,
        {
            let deletion = if i < self.deletions.len() {
                Some(self.deletions[i])
            } else {
                None
            };
            let addition = if i < self.additions.len() {
                Some(self.additions[i])
            } else {
                None
            };
            rows.push((deletion, addition));
            i = i + 1;
            assert(rows@ =~= self.paired().take(i as int));
        }
        assert(self.paired().take(i as int) =~= self.paired());
        rows
    }
}

/// A part of a hunk.
#[derive(Debug)]
pub enum HunkSegment {
    /// A context line, by its index into the hunk's lines.
    Context(usize),
    /// A run of changed lines.
    ChangeBlock(ChangeBlock),
}

/// Lines between hunks that were asked for: those read downwards from the
/// hunk above, and those read upwards from the hunk below.
#[derive(Debug)]
pub struct ExpandedLines {
    pub top: Vec<DiffLine>,
    pub bottom: Vec<DiffLine>,
}

/// A hunk of a diff.
#[derive(Debug)]
pub struct DiffHunk {
    /// The text and style of the hunk's header row.
    pub header: String,
    pub header_style: Style,
    pub lines: Vec<DiffLine>,
    pub segments: Vec<HunkSegment>,
    pub new_start: u32,
    pub new_count: u32,
    /// How many lines of the file lie between the hunk above, or the start of
    /// the file, and this hunk.
    pub gap_before: u32,
    /// Whether those lines have rows of their own.
    pub shows_gap: bool,
    pub expanded: ExpandedLines,
    /// Whether the hunk is folded down to its header.
    pub is_collapsed: bool,
}

impl HunkSegment {
    /// Whether the segment names some of `len` lines.
    pub open spec fn inside(self, len: nat) -> bool {
        match self {
            HunkSegment::Context(at) => at < len,
            HunkSegment::ChangeBlock(block) => block.inside(len),
        }
    }
}

impl DiffHunk {
    /// Whether the segments name lines of the hunk.
    pub open spec fn wf(self) -> bool {
        forall|i: int|
            0 <= i < self.segments@.len() ==> (#[trigger] self.segments@[i]).inside(
                self.lines@.len(),
            )
    }

    /// Whether the segments name lines of the hunk.
    pub fn is_wf(&self) -> (yes: bool)
        ensures
            yes == self.wf(),
    {
        let mut i: usize = 0;
        while i < self.segments.len()
            invariant
                i <= self.segments.len(),
                forall|j: int|
                    0 <= j < i ==> (#[trigger] self.segments@[j]).inside(self.lines@.len()),
            decreases self.segments.len() - i,
        {
            let inside = match &self.segments[i] {
                HunkSegment::Context(at) => *at < self.lines.len(),
                HunkSegment::ChangeBlock(block) => block.is_inside(self.lines.len()),
            };
            if !inside {
                assert(!self.segments@[i as int].inside(self.lines@.len()));
                return false;
            }
            i = i + 1;
        }
        true
    }
}

/// What happened to a file.
#[derive(Clone, Copy, Debug, PartialEq, Eq, Structural)]
pub enum FileStatus {
    Added,
    Modified,
    Deleted,
    Renamed,
    Copied,
}

/// A comment of the review, formatted for the panel it is shown in.
#[derive(Debug)]
pub struct Comment {
    pub id: String,
    pub side: Option<LineSide>,
    pub line_range: Option<LineRange>,
    /// Whether the comment passes the filter in force.
    pub is_visible: bool,
    /// The rows of the comment's box.
    pub rows: usize,
    pub lines: Vec<Line>,
}

/// A file of a diff.
#[derive(Debug)]
pub struct DiffFile {
    pub path: String,
    /// The text of the file's header row, before its rule.
    pub header: String,
    pub status: FileStatus,
    pub hunks: Vec<DiffHunk>,
    pub is_binary: bool,
    pub is_too_large: bool,
    pub is_commit_message: bool,
    /// What stands in place of hunks where there is nothing to show.
    pub empty_label: String,
    /// Whether the file passes the filter in force.
    pub passes_filter: bool,
    pub is_reviewed: bool,
    /// Whether the file is folded down to its header.
    pub is_collapsed: bool,
    pub file_comments: Vec<Comment>,
    pub line_comments: HashMap<u32, Vec<Comment>>,
    /// How many lines the new version of the file has, once they were counted.
    pub line_count: Option<u32>,
    /// Lines after the last hunk that were asked for.
    pub expanded_end: ExpandedLines,
}

impl DiffFile {
    /// The first line of the file after its last hunk.
    pub open spec fn end_start(self) -> int {
        self.hunks@.last().new_start + self.hunks@.last().new_count
    }

    /// Whether the lines after the last hunk may be shown.
    pub open spec fn may_end_in_gap(self, shows_end_gaps: bool) -> bool {
        self.status != FileStatus::Deleted && shows_end_gaps && self.hunks@.len() > 0
    }

    /// Whether the hunks are well-formed and, where they may be shown, the
    /// lines after the last one can be counted.
    pub open spec fn wf(self, shows_end_gaps: bool) -> bool {
        &&& forall|i: int| 0 <= i < self.hunks@.len() ==> (#[trigger] self.hunks@[i]).wf()
        &&& self.may_end_in_gap(shows_end_gaps) ==> {
            &&& self.end_start() <= u32::MAX
            &&& self.line_count is Some && self.end_start() <= self.line_count->0
                ==> self.line_count->0 - self.end_start() + 1 <= u32::MAX
        }
    }

    /// Whether the hunks are well-formed and, where they may be shown, the
    /// lines after the last one can be counted.
    pub fn is_wf(&self, shows_end_gaps: bool) -> (yes: bool)
        ensures
            yes == self.wf(shows_end_gaps),
    {
        let mut i: usize = 0;
        while i < self.hunks.len()
            invariant
                i <= self.hunks.len(),
                forall|j: int| 0 <= j < i ==> (#[trigger] self.hunks@[j]).wf(),
            decreases self.hunks.len() - i,
        {
            if !self.hunks[i].is_wf() {
                return false;
            }
            i = i + 1;
        }
        if self.status == FileStatus::Deleted || !shows_end_gaps || self.hunks.len() == 0 {
            return true;
        }
        let last = &self.hunks[self.hunks.len() - 1];
        match (last.new_start.checked_add(last.new_count), self.line_count) {
            (Some(start), Some(total)) => start > 0 || total < u32::MAX,
            (Some(_), None) => true,
            (None, _) => false,
        }
    }

    /// Whether the file has nothing to show as hunks.
    pub open spec fn is_bare(self) -> bool {
        self.is_too_large || self.is_binary || self.hunks@.len() == 0
    }
}

/// The side of a diff that a remote thread is anchored to.
#[derive(Clone, Copy, Debug, PartialEq, Eq, Structural)]
pub enum RemoteCommentSide {
    Left,
    Right,
}

/// A thread of a remote review, formatted for the panel it is shown in.
#[derive(Debug)]
pub struct RemoteReviewThread {
    pub path: String,
    /// The line that the thread is anchored to; a thread without one speaks of
    /// the review as a whole.
    pub line: Option<u32>,
    pub side: RemoteCommentSide,
    /// Whether the visibility in force shows the thread.
    pub is_shown: bool,
    pub lines: Vec<Line>,
}

/// The input box of a comment that is being written.
#[derive(Debug)]
pub struct CommentInput {
    pub lines: Vec<Line>,
    /// The line of the box and the column in it at which the cursor stands.
    pub line_offset: usize,
    pub column: u16,
}

impl CommentInput {
    /// Whether the cursor stands in the box and its column can be counted.
    pub open spec fn wf(self) -> bool {
        &&& self.line_offset <= self.lines@.len()
        &&& self.column < u16::MAX
    }

    /// Whether the cursor stands in the box and its column can be counted.
    pub fn is_wf(&self) -> (yes: bool)
        ensures
            yes == self.wf(),
    {
        self.line_offset <= self.lines.len() && self.column < u16::MAX
    }
}

} // verus!
