//! The text of a side-by-side column: a diff line in its styles, with the
//! highlights that lie over it.

use crate::gutter::{blank_text, blanks};
use crate::model::{DiffLine, LineOrigin};
use crate::paint::{
    lemma_nothing_painted, lemma_painted_runs_cells, paint_ranges, painted_runs, Paint,
};
use crate::style::{
    cells, chars_of, lemma_push_run, narrow_runs, plain_style, push_text, runs, runs_width, Color,
    Run, Span, Style,
};
use crate::text::byte_offset;
use crate::theme::Theme;
use crate::unicode::width;
use crate::word_diff::marks;
use std::ops::Range;
use vstd::prelude::*;

verus! {

/// The style of a line that has no syntax colors.
pub open spec fn base_style(theme: Theme, origin: LineOrigin) -> Style {
    match origin {
        LineOrigin::Context => theme.diff_context_style,
        LineOrigin::Addition => theme.diff_add_style,
        LineOrigin::Deletion => theme.diff_del_style,
    }
}

/// Styled texts as runs.
pub open spec fn pair_runs(pairs: Seq<(Style, String)>) -> Seq<Run> {
    Seq::new(pairs.len(), |i: int| (pairs[i].1@, pairs[i].0))
}

/// A line in syntax colors, where it has them, or in its diff style.
pub open spec fn source_runs(theme: Theme, dl: DiffLine) -> Seq<Run> {
    match dl.highlighted_spans {
        Some(pairs) => pair_runs(pairs@),
        None => seq![(dl.content@, base_style(theme, dl.origin))],
    }
}

/// The background of a changed word on a line; a context line has none.
pub open spec fn word_background(theme: Theme, dl: DiffLine) -> Option<Color> {
    match (dl.origin, dl.highlighted_spans is Some) {
        (LineOrigin::Context, _) => None,
        (LineOrigin::Addition, false) => Some(theme.word_add_bg),
        (LineOrigin::Addition, true) => Some(theme.syntax_word_add_bg),
        (LineOrigin::Deletion, false) => Some(theme.word_del_bg),
        (LineOrigin::Deletion, true) => Some(theme.syntax_word_del_bg),
    }
}

/// `row` with the changed words of the line on their background.
pub open spec fn word_runs(
    theme: Theme,
    dl: DiffLine,
    word_ranges: Seq<Range<usize>>,
    row: Seq<Run>,
) -> Seq<Run> {
    match word_background(theme, dl) {
        Some(color) => painted_runs(row, word_ranges, Paint::Background(color)),
        None => row,
    }
}

/// `row` with the search matches painted over it, where there is a search.
pub open spec fn searched_runs(
    row: Seq<Run>,
    matches: Seq<Range<usize>>,
    search: Option<Style>,
) -> Seq<Run> {
    match search {
        Some(style) => painted_runs(row, matches, Paint::Over(style)),
        None => row,
    }
}

/// A line's content, in layer order: its source, changed words, search
/// matches.
pub open spec fn content_runs(
    theme: Theme,
    dl: DiffLine,
    word_ranges: Seq<Range<usize>>,
    search: Option<Style>,
) -> Seq<Run> {
    searched_runs(
        word_runs(theme, dl, word_ranges, source_runs(theme, dl)),
        dl.search_matches@,
        search,
    )
}

/// Styled texts as spans.
fn pair_spans(pairs: &Vec<(Style, String)>) -> (spans: Vec<Span>)
    ensures
        runs(spans@) == pair_runs(pairs@),
{
    let mut spans: Vec<Span> = Vec::new();
    let mut i: usize = 0;
    assert(runs(spans@) =~= pair_runs(pairs@).take(0));
    while i < pairs.len()
        invariant
            i <= pairs.len(),
            runs(spans@) == pair_runs(pairs@).take(i as int),
        decreases pairs.len() - i,
    {
        push_text(&mut spans, pairs[i].1.as_str(), pairs[i].0);
        i = i + 1;
        assert(runs(spans@) =~= pair_runs(pairs@).take(i as int));
    }
    assert(pair_runs(pairs@).take(i as int) =~= pair_runs(pairs@));
    spans
}

/// One text in one style, as spans.
fn text_spans(text: &str, style: Style) -> (spans: Vec<Span>)
    ensures
        runs(spans@) == seq![(text@, style)],
{
    let mut spans: Vec<Span> = Vec::new();
    push_text(&mut spans, text, style);
    assert(runs(spans@) =~= seq![(text@, style)]);
    spans
}

/// Paint the search matches over `spans`, where there is a search.
fn search_spans(spans: Vec<Span>, matches: &Vec<Range<usize>>, search: Option<Style>) -> (out: Vec<
    Span,
>)
    ensures
        runs(out@) == searched_runs(runs(spans@), matches@, search),
{
    match search {
        Some(style) => paint_ranges(&spans, matches, Paint::Over(style)),
        None => spans,
    }
}

/// Put the changed words of a line on their background. The foreground stays.
pub fn apply_word_highlight(
    theme: &Theme,
    dl: &DiffLine,
    word_ranges: &Vec<Range<usize>>,
    spans: Vec<Span>,
) -> (out: Vec<Span>)
    ensures
        runs(out@) == word_runs(*theme, *dl, word_ranges@, runs(spans@)),
{
    let color = match (dl.origin, dl.highlighted_spans.is_some()) {
        (LineOrigin::Context, _) => {
            return spans;
        },
        (LineOrigin::Addition, false) => theme.word_add_bg,
        (LineOrigin::Addition, true) => theme.syntax_word_add_bg,
        (LineOrigin::Deletion, false) => theme.word_del_bg,
        (LineOrigin::Deletion, true) => theme.syntax_word_del_bg,
    };
    paint_ranges(&spans, word_ranges, Paint::Background(color))
}

/// A diff line's content as full-line spans, in layer order: the diff style,
/// syntax spans, word highlight, then search highlight, which wins where the
/// two overlap. The highlights go on the full line, before any truncation,
/// wrapping, or horizontal scroll, so every row path marks the same
/// characters.
pub fn content_spans_for_diff_line(
    theme: &Theme,
    dl: &DiffLine,
    word_ranges: &Vec<Range<usize>>,
    search: Option<Style>,
) -> (spans: Vec<Span>)
    ensures
        runs(spans@) == content_runs(*theme, *dl, word_ranges@, search),
{
    let base = match dl.origin {
        LineOrigin::Context => theme.diff_context_style,
        LineOrigin::Addition => theme.diff_add_style,
        LineOrigin::Deletion => theme.diff_del_style,
    };
    let spans = match &dl.highlighted_spans {
        Some(pairs) => pair_spans(pairs),
        None => text_spans(dl.content.as_str(), base),
    };
    let spans = apply_word_highlight(theme, dl, word_ranges, spans);
    search_spans(spans, &dl.search_matches, search)
}

/// Syntax-colored text with its search matches, before it is cut to a column.
pub fn searched_cell_spans(
    pairs: &Vec<(Style, String)>,
    matches: &Vec<Range<usize>>,
    search: Option<Style>,
) -> (spans: Vec<Span>)
    ensures
        runs(spans@) == searched_runs(pair_runs(pairs@), matches@, search),
{
    search_spans(pair_spans(pairs), matches, search)
}

/// Text in one style with its search matches, before it is cut to a column.
pub fn plain_cell_spans(
    content: &str,
    style: Style,
    matches: &Vec<Range<usize>>,
    search: Option<Style>,
) -> (spans: Vec<Span>)
    ensures
        runs(spans@) == searched_runs(seq![(content@, style)], matches@, search),
{
    search_spans(text_spans(content, style), matches, search)
}

/// The style that fills a column after the text of a line.
pub open spec fn pad_style(theme: Theme, dl: DiffLine, origin: LineOrigin) -> Style {
    match (origin, dl.highlighted_spans is Some) {
        (LineOrigin::Addition, true) => Style {
            fg: Some(theme.diff_add),
            bg: Some(theme.syntax_add_bg),
            ..plain_style()
        },
        (LineOrigin::Deletion, true) => Style {
            fg: Some(theme.diff_del),
            bg: Some(theme.syntax_del_bg),
            ..plain_style()
        },
        _ => base_style(theme, origin),
    }
}

/// The style that fills a column after the text of a line.
pub fn column_pad_style(theme: &Theme, dl: &DiffLine, origin: LineOrigin) -> (style: Style)
    ensures
        style == pad_style(*theme, *dl, origin),
{
    match origin {
        LineOrigin::Context => theme.diff_context_style,
        LineOrigin::Addition => {
            if dl.highlighted_spans.is_some() {
                Style::default().fg(theme.diff_add).bg(theme.syntax_add_bg)
            } else {
                theme.diff_add_style
            }
        },
        LineOrigin::Deletion => {
            if dl.highlighted_spans.is_some() {
                Style::default().fg(theme.diff_del).bg(theme.syntax_del_bg)
            } else {
                theme.diff_del_style
            }
        },
    }
}

/// A count as far as a `usize` goes.
pub open spec fn capped(n: nat) -> nat {
    if n <= usize::MAX {
        n
    } else {
        usize::MAX as nat
    }
}

/// The terminal columns that spans take.
pub fn measure(spans: &Vec<Span>) -> (columns: usize)
    ensures
        columns == capped(runs_width(runs(spans@))),
        narrow_runs(runs(spans@)) ==> runs_width(runs(spans@)) == cells(runs(spans@)).len(),
{
    let ghost row = runs(spans@);
    let mut columns: usize = 0;
    let mut i: usize = 0;
    while i < spans.len()
        invariant
            i <= spans.len(),
            row == runs(spans@),
            columns == capped(runs_width(row.take(i as int))),
            narrow_runs(row) ==> runs_width(row.take(i as int)) == cells(
                row.take(i as int),
            ).len(),
        decreases spans.len() - i,
    {
        assert(row.take(i + 1).drop_last() =~= row.take(i as int));
        assert(row[i as int].0 == spans@[i as int].content@);
        columns = columns.saturating_add(width(spans[i].content.as_str()));
        i = i + 1;
    }
    assert(row.take(row.len() as int) =~= row);
    columns
}

/// `row`, which takes `columns`, with one run of spaces after it up to
/// `target`; a row that is as wide or wider stays as it is.
pub open spec fn padded_runs(row: Seq<Run>, columns: nat, target: int, style: Style) -> Seq<Run> {
    if columns < target {
        row.push((blanks(target - columns), style))
    } else {
        row
    }
}

/// `spans`, which take `columns`, with spaces after them up to the `target`
/// width.
pub fn pad_measured(spans: Vec<Span>, columns: usize, target: usize, pad_style: Style) -> (padded:
    Vec<Span>)
    ensures
        runs(padded@) == padded_runs(runs(spans@), columns as nat, target as int, pad_style),
        padded@.len() == spans@.len() + (if columns < target {
            1int
        } else {
            0
        }),
        padded@.take(spans@.len() as int) == spans@,
        runs_width(runs(padded@)) == runs_width(runs(spans@)) + (if columns < target {
            target - columns
        } else {
            0
        }),
{
    let ghost before = spans@;
    let mut spans = spans;
    if columns < target {
        let text = blank_text(target - columns);
        let span = Span { content: text, style: pad_style };
        proof {
            lemma_push_run(runs(spans@), (text@, pad_style));
            assert(runs(spans@.push(span)) =~= runs(spans@).push((text@, pad_style)));
        }
        spans.push(span);
    }
    assert(spans@.take(before.len() as int) =~= before);
    spans
}

/// `spans` with spaces after them up to the `target` width. Nothing is cut off,
/// and padding once more changes nothing.
pub fn pad_spans_to_width(spans: Vec<Span>, target: usize, pad_style: Style) -> (padded: Vec<Span>)
    ensures
        runs(padded@) == padded_runs(
            runs(spans@),
            runs_width(runs(spans@)),
            target as int,
            pad_style,
        ),
        padded@.len() == spans@.len() + (if runs_width(runs(spans@)) < target {
            1int
        } else {
            0
        }),
        padded@.take(spans@.len() as int) == spans@,
        runs_width(runs(padded@)) == (if runs_width(runs(spans@)) < target {
            target as nat
        } else {
            runs_width(runs(spans@))
        }),
        padded_runs(
            runs(padded@),
            runs_width(runs(padded@)),
            target as int,
            pad_style,
        ) == runs(padded@),
{
    let columns: usize = measure(&spans);
    pad_measured(spans, columns, target, pad_style)
}

/// Highlights add no characters: a line shows its source's characters, however
/// its words and matches are marked.
pub proof fn lemma_highlights_keep_text(
    theme: Theme,
    dl: DiffLine,
    word_ranges: Seq<Range<usize>>,
    search: Option<Style>,
)
    ensures
        chars_of(cells(content_runs(theme, dl, word_ranges, search))) == chars_of(
            cells(source_runs(theme, dl)),
        ),
{
    let source = source_runs(theme, dl);
    if let Some(color) = word_background(theme, dl) {
        lemma_painted_runs_cells(source, word_ranges, Paint::Background(color));
    }
    if let Some(style) = search {
        lemma_painted_runs_cells(
            word_runs(theme, dl, word_ranges, source),
            dl.search_matches@,
            Paint::Over(style),
        );
    }
    assert(chars_of(cells(content_runs(theme, dl, word_ranges, search))) =~= chars_of(
        cells(source),
    ));
}

/// A changed word takes its background and keeps the rest of its style.
pub proof fn lemma_word_keeps_foreground(
    theme: Theme,
    dl: DiffLine,
    word_ranges: Seq<Range<usize>>,
    i: int,
)
    requires
        0 <= i < cells(source_runs(theme, dl)).len(),
    ensures
        ({
            let source = cells(source_runs(theme, dl));
            let shown = cells(content_runs(theme, dl, word_ranges, None));
            let marked = marks(word_ranges, byte_offset(chars_of(source), i));
            &&& shown[i].1 == (Style { bg: shown[i].1.bg, ..source[i].1 })
            &&& shown[i].1.bg == (if marked && dl.origin != LineOrigin::Context {
                word_background(theme, dl)
            } else {
                source[i].1.bg
            })
        }),
{
    if let Some(color) = word_background(theme, dl) {
        lemma_painted_runs_cells(source_runs(theme, dl), word_ranges, Paint::Background(color));
    }
}

/// A search match is painted over a changed word: where the two overlap, what
/// the search style sets shows.
pub proof fn lemma_search_wins(
    theme: Theme,
    dl: DiffLine,
    word_ranges: Seq<Range<usize>>,
    search: Style,
    i: int,
)
    requires
        0 <= i < cells(source_runs(theme, dl)).len(),
        marks(dl.search_matches@, byte_offset(chars_of(cells(source_runs(theme, dl))), i)),
    ensures
        ({
            let below = cells(content_runs(theme, dl, word_ranges, None));
            let shown = cells(content_runs(theme, dl, word_ranges, Some(search)));
            &&& shown[i].1 == below[i].1.patched(search)
            &&& search.bg is Some ==> shown[i].1.bg == search.bg
            &&& search.fg is Some ==> shown[i].1.fg == search.fg
        }),
{
    let below = content_runs(theme, dl, word_ranges, None);
    lemma_highlights_keep_text(theme, dl, word_ranges, None);
    lemma_painted_runs_cells(below, dl.search_matches@, Paint::Over(search));
    assert(chars_of(cells(below)).len() == cells(below).len());
}

/// A line without changed words shows its source, run by run.
pub proof fn lemma_unmarked_line(theme: Theme, dl: DiffLine, search: Option<Style>)
    ensures
        content_runs(theme, dl, Seq::empty(), None) == source_runs(theme, dl),
        content_runs(theme, dl, Seq::empty(), search) == searched_runs(
            source_runs(theme, dl),
            dl.search_matches@,
            search,
        ),
{
    if let Some(color) = word_background(theme, dl) {
        let none = Seq::<Range<usize>>::empty();
        assert forall|at: int| !#[trigger] marks(none, at) by {}
        lemma_nothing_painted(source_runs(theme, dl), none, Paint::Background(color));
    }
}

} // verus!
