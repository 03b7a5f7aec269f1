//! The rows of a side-by-side diff, top to bottom, and what is anchored to
//! them.

use crate::model::LineRange;
use crate::style::{runs, Line, Run, Span, Style};
use vstd::prelude::*;

verus! {

/// The two columns of a row and what stands left of each.
#[derive(Debug)]
pub struct SbsRowMeta {
    pub left_content: Vec<Span>,
    pub right_content: Vec<Span>,
    pub left_prefix: Vec<Span>,
    pub right_prefix: Vec<Span>,
    pub left_pad_style: Style,
    pub right_pad_style: Style,
}

/// What [`SbsRowMeta`] shows.
#[verifier::ext_equal]
pub struct MetaView {
    pub left_content: Seq<Run>,
    pub right_content: Seq<Run>,
    pub left_prefix: Seq<Run>,
    pub right_prefix: Seq<Run>,
    pub left_pad_style: Style,
    pub right_pad_style: Style,
}

impl View for SbsRowMeta {
    type V = MetaView;

    open spec fn view(&self) -> MetaView {
        MetaView {
            left_content: runs(self.left_content@),
            right_content: runs(self.right_content@),
            left_prefix: runs(self.left_prefix@),
            right_prefix: runs(self.right_prefix@),
            left_pad_style: self.left_pad_style,
            right_pad_style: self.right_pad_style,
        }
    }
}

/// How a cell's text is cut or padded to its column where lines do not wrap.
#[derive(Clone, Copy, Debug, PartialEq, Eq, Structural)]
pub enum Cut {
    /// Plain text, by characters.
    Chars,
    /// Syntax-colored context.
    Spans,
    /// A changed line, by display width.
    Line,
}

/// A row of two columns. Where lines do not wrap, each cell is cut or padded to
/// its column and stands after its prefix; where they do, the contents wrap.
#[derive(Debug)]
pub struct ColumnsRow {
    pub left_cell: Vec<Span>,
    pub right_cell: Vec<Span>,
    pub cut: Cut,
    pub meta: SbsRowMeta,
}

/// Which lines an expander row asks for.
#[derive(Clone, Copy, Debug, PartialEq, Eq, Structural)]
pub enum ExpandDirection {
    Up,
    Down,
    Both,
}

/// A row that stands for hidden lines.
#[derive(Clone, Copy, Debug, PartialEq, Eq, Structural)]
pub enum GapStub {
    /// How many lines are hidden.
    Hidden,
    /// An offer to show more of them.
    Expander(ExpandDirection),
}

/// A row of the diff.
#[derive(Debug)]
pub enum Row {
    /// One text over the full width.
    Full(Line),
    /// Two columns.
    Columns(ColumnsRow),
    /// A stub for hidden lines.
    Gap { stub: GapStub, remaining: usize, on_cursor: bool },
}

/// What a [`Row`] shows.
#[verifier::ext_equal]
pub enum RowView {
    Full(Seq<Run>),
    Columns { left_cell: Seq<Run>, right_cell: Seq<Run>, cut: Cut, meta: MetaView },
    Gap { stub: GapStub, remaining: usize, on_cursor: bool },
}

impl View for Row {
    type V = RowView;

    open spec fn view(&self) -> RowView {
        match self {
            Row::Full(line) => RowView::Full(runs(line.spans@)),
            Row::Columns(row) => RowView::Columns {
                left_cell: runs(row.left_cell@),
                right_cell: runs(row.right_cell@),
                cut: row.cut,
                meta: row.meta@,
            },
            Row::Gap { stub, remaining, on_cursor } => RowView::Gap {
                stub: *stub,
                remaining: *remaining,
                on_cursor: *on_cursor,
            },
        }
    }
}

/// The bar beside the lines that a comment speaks of: the first row of the
/// comment's box, and the lines.
#[derive(Clone, Copy, Debug, PartialEq, Eq, Structural)]
pub struct CommentBarAnchor {
    pub row: usize,
    pub line_range: LineRange,
}

/// Where the input box of a comment landed.
#[derive(Clone, Copy, Debug, PartialEq, Eq, Structural)]
pub struct InputPlacement {
    /// The row and the column of the text cursor.
    pub cursor_line: usize,
    pub cursor_column: u16,
    /// The first and the last row of the box.
    pub box_start: usize,
    pub box_end: usize,
    /// How many rows the box takes in place of how many rows of the comment
    /// that it edits.
    pub annotation_len: usize,
    pub annotations_replaced: usize,
}

/// The rows of a side-by-side diff, the bars beside them, and the input box
/// among them.
#[derive(Debug)]
pub struct SideBySideRows {
    pub rows: Vec<Row>,
    pub comment_bars: Vec<CommentBarAnchor>,
    pub input: Option<InputPlacement>,
}

/// What [`SideBySideRows`] show.
#[verifier::ext_equal]
pub struct Sheet {
    pub rows: Seq<RowView>,
    pub bars: Seq<CommentBarAnchor>,
    pub input: Option<InputPlacement>,
}

/// What rows show.
pub open spec fn row_views(rows: Seq<Row>) -> Seq<RowView> {
    Seq::new(rows.len(), |i: int| rows[i]@)
}

impl View for SideBySideRows {
    type V = Sheet;

    open spec fn view(&self) -> Sheet {
        Sheet { rows: row_views(self.rows@), bars: self.comment_bars@, input: self.input }
    }
}

impl Sheet {
    /// A sheet without rows.
    pub open spec fn empty() -> Sheet {
        Sheet { rows: Seq::empty(), bars: Seq::empty(), input: None }
    }

    /// How many rows there are.
    pub open spec fn len(self) -> int {
        self.rows.len() as int
    }

    /// The sheet with one more row.
    pub open spec fn with_row(self, row: RowView) -> Sheet {
        Sheet { rows: self.rows.push(row), ..self }
    }

    /// The sheet with more rows.
    pub open spec fn with_rows(self, more: Seq<RowView>) -> Sheet {
        Sheet { rows: self.rows + more, ..self }
    }

    /// The sheet with one more bar.
    pub open spec fn with_bar(self, row: int, line_range: LineRange) -> Sheet {
        Sheet {
            bars: self.bars.push(CommentBarAnchor { row: row as usize, line_range }),
            ..self
        }
    }

    /// The sheet with an input box at the given place.
    pub open spec fn with_input(self, placement: InputPlacement) -> Sheet {
        Sheet { input: Some(placement), ..self }
    }
}

/// The row of nothing that holds the place of a row outside the viewport.
pub open spec fn blank_row() -> RowView {
    RowView::Full(Seq::empty())
}

/// `n` rows of nothing.
pub open spec fn blank_rows(n: int) -> Seq<RowView> {
    Seq::new(n as nat, |i: int| blank_row())
}

impl SideBySideRows {
    /// No rows.
    pub fn new() -> (out: Self)
        ensures
            out@ == Sheet::empty(),
    {
        let out = SideBySideRows { rows: Vec::new(), comment_bars: Vec::new(), input: None };
        assert(out@ =~= Sheet::empty());
        out
    }

    /// Append a row.
    pub fn push(&mut self, row: Row)
        ensures
            final(self)@ == old(self)@.with_row(row@),
            final(self).rows@.len() == old(self).rows@.len() + 1,
    {
        self.rows.push(row);
        assert(self@ =~= old(self)@.with_row(row@));
    }

    /// Append a full-width row.
    pub fn push_full(&mut self, spans: Vec<Span>)
        ensures
            final(self)@ == old(self)@.with_row(RowView::Full(runs(spans@))),
            final(self).rows@.len() == old(self).rows@.len() + 1,
    {
        self.push(Row::Full(Line { spans }));
    }

    /// Append a row of nothing.
    pub fn push_blank(&mut self)
        ensures
            final(self)@ == old(self)@.with_row(blank_row()),
            final(self).rows@.len() == old(self).rows@.len() + 1,
    {
        let spans: Vec<Span> = Vec::new();
        assert(runs(spans@) =~= Seq::<Run>::empty());
        self.push_full(spans);
    }

    /// Hold the place of a comment box outside the viewport.
    pub fn skip_comment_box(&mut self, rows: usize)
        ensures
            final(self)@ == old(self)@.with_rows(blank_rows(rows as int)),
    {
        let mut k: usize = 0;
        assert(self@ =~= old(self)@.with_rows(blank_rows(0)));
        while k < rows
            invariant
                k <= rows,
                self@ == old(self)@.with_rows(blank_rows(k as int)),
            decreases rows - k,
        {
            self.push_blank();
            k = k + 1;
            assert(self@ =~= old(self)@.with_rows(blank_rows(k as int)));
        }
    }

    /// Record the bar of a comment whose box starts at `row`.
    pub fn push_comment_bar(&mut self, row: usize, line_range: LineRange)
        ensures
            final(self)@ == old(self)@.with_bar(row as int, line_range),
            final(self).rows@ == old(self).rows@,
    {
        self.comment_bars.push(CommentBarAnchor { row, line_range });
    }
}

} // verus!
