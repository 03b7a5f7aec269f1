//! What every cell of a diff row shows, said of the lines and the theme alone.

use crate::columns::{
    content_runs, lemma_highlights_keep_text, pad_style, padded_runs, searched_runs, source_runs,
    word_background, word_runs,
};
use crate::gutter::{
    blanks, decimal, indicator_text, left_prefix_runs, number_text, right_prefix_runs, Marker,
    SideSpec,
};
use crate::model::{DiffLine, LineOrigin};
use crate::paint::{lemma_painted_runs_cells, Paint};
use crate::style::{
    cells, chars_of, lemma_cells_concat, lemma_push_run, runs, styled, Color, Run, Span, Style,
};
use crate::theme::Theme;
use std::ops::Range;
use vstd::prelude::*;
use vstd::utf8::encode_utf8;

verus! {

/// Whether the character with index `i` starts in one of the byte ranges.
pub open spec fn starts_in(ranges: Seq<Range<usize>>, text: Seq<char>, i: int) -> bool {
    exists|k: int|
        0 <= k < ranges.len() && (#[trigger] ranges[k]).start <= encode_utf8(text.take(i)).len()
            < ranges[k].end
}

/// The style of a diff line without syntax colors.
pub open spec fn origin_style(theme: Theme, origin: LineOrigin) -> Style {
    if origin == LineOrigin::Addition {
        theme.diff_add_style
    } else if origin == LineOrigin::Deletion {
        theme.diff_del_style
    } else {
        theme.diff_context_style
    }
}

/// The background of a changed word on an added or deleted line.
pub open spec fn mark_color(theme: Theme, origin: LineOrigin, in_syntax_colors: bool) -> Color {
    if origin == LineOrigin::Addition {
        if in_syntax_colors {
            theme.syntax_word_add_bg
        } else {
            theme.word_add_bg
        }
    } else {
        if in_syntax_colors {
            theme.syntax_word_del_bg
        } else {
            theme.word_del_bg
        }
    }
}

/// A style below a search match, and elsewhere.
pub open spec fn under_search(below: Style, search: Option<Style>, hit: bool) -> Style {
    match search {
        Some(over) => if hit {
            below.patched(over)
        } else {
            below
        },
        None => below,
    }
}

/// The style of a character of a changed line: its own, on the background of a
/// changed word, under a search match.
pub open spec fn line_style(
    theme: Theme,
    dl: DiffLine,
    own: Style,
    word: bool,
    search: Option<Style>,
    hit: bool,
) -> Style {
    under_search(
        if word && dl.origin != LineOrigin::Context {
            Style {
                bg: Some(mark_color(theme, dl.origin, dl.highlighted_spans is Some)),
                ..own
            }
        } else {
            own
        },
        search,
        hit,
    )
}

/// What is painted over a style shows where it says something: colors replace
/// colors, modifiers that are set come on and those that are taken go off, and
/// all else stays.
pub proof fn lemma_painting_over(below: Style, over: Style)
    ensures
        over.fg is Some ==> below.patched(over).fg == over.fg,
        over.fg is None ==> below.patched(over).fg == below.fg,
        over.bg is Some ==> below.patched(over).bg == over.bg,
        over.bg is None ==> below.patched(over).bg == below.bg,
        below.patched(over).add_modifier & over.add_modifier == over.add_modifier,
        below.patched(over).sub_modifier & over.sub_modifier == over.sub_modifier,
        below.patched(over).add_modifier & over.sub_modifier & !over.add_modifier == 0,
        below.patched(over).sub_modifier & over.add_modifier & !over.sub_modifier == 0,
        below.patched(over).add_modifier & !(over.add_modifier | over.sub_modifier)
            == below.add_modifier & !(over.add_modifier | over.sub_modifier),
        below.patched(over).sub_modifier & !(over.add_modifier | over.sub_modifier)
            == below.sub_modifier & !(over.add_modifier | over.sub_modifier),
{
    lemma_bits(below.add_modifier, over.sub_modifier, over.add_modifier);
    lemma_bits(below.sub_modifier, over.add_modifier, over.sub_modifier);
    let a = over.add_modifier;
    let b = over.sub_modifier;
    assert(a | b == b | a) by (bit_vector);
}

proof fn lemma_bits(own: u16, off: u16, on: u16)
    ensures
        ((own & !off) | on) & on == on,
        ((own & !off) | on) & off & !on == 0,
        ((own & !off) | on) & !(on | off) == own & !(on | off),
{
    assert(((own & !off) | on) & on == on) by (bit_vector);
    assert(((own & !off) | on) & off & !on == 0) by (bit_vector);
    assert(((own & !off) | on) & !(on | off) == own & !(on | off)) by (bit_vector);
}

/// Spans show their texts in their styles, character by character and in order.
pub proof fn lemma_spans_show_their_text(spans: Seq<Span>, more: Seq<Span>, span: Span, i: int)
    requires
        0 <= i < span.content@.len(),
    ensures
        runs(spans + more) == runs(spans) + runs(more),
        cells(runs(spans + more)) == cells(runs(spans)) + cells(runs(more)),
        cells(runs(seq![span])).len() == span.content@.len(),
        cells(runs(seq![span]))[i] == (span.content@[i], span.style),
{
    assert(runs(spans + more) =~= runs(spans) + runs(more));
    lemma_cells_concat(runs(spans), runs(more));
    assert(runs(seq![span]) =~= Seq::<Run>::empty().push((span.content@, span.style)));
    lemma_push_run(Seq::empty(), (span.content@, span.style));
}

/// A text in one style, and what a search makes of it: each character keeps its
/// place, and the matched ones are painted over.
pub proof fn lemma_search_paints_matches(
    row: Seq<Run>,
    matches: Seq<Range<usize>>,
    search: Option<Style>,
    i: int,
)
    requires
        0 <= i < cells(row).len(),
    ensures
        cells(searched_runs(row, matches, search)).len() == cells(row).len(),
        cells(searched_runs(row, matches, search))[i] == (
            cells(row)[i].0,
            under_search(
                cells(row)[i].1,
                search,
                starts_in(
                    matches,
                    Seq::new(cells(row).len(), |j: int| cells(row)[j].0),
                    i,
                ),
            ),
        ),
{
    assert(chars_of(cells(row)) =~= Seq::new(cells(row).len(), |j: int| cells(row)[j].0));
    if let Some(style) = search {
        lemma_painted_runs_cells(row, matches, Paint::Over(style));
    }
}

/// The cells of a line, layer by layer.
proof fn lemma_line_layers(
    theme: Theme,
    dl: DiffLine,
    words: Seq<Range<usize>>,
    search: Option<Style>,
    i: int,
)
    requires
        0 <= i < cells(source_runs(theme, dl)).len(),
    ensures
        ({
            let source = cells(source_runs(theme, dl));
            let shown = cells(content_runs(theme, dl, words, search));
            let text = chars_of(source);
            &&& shown.len() == source.len()
            &&& shown[i] == (
                source[i].0,
                line_style(
                    theme,
                    dl,
                    source[i].1,
                    starts_in(words, text, i),
                    search,
                    starts_in(dl.search_matches@, text, i),
                ),
            )
        }),
{
    let source = source_runs(theme, dl);
    let text = chars_of(cells(source));
    let marked = word_runs(theme, dl, words, source);
    if let Some(color) = word_background(theme, dl) {
        lemma_painted_runs_cells(source, words, Paint::Background(color));
    }
    lemma_highlights_keep_text(theme, dl, words, None);
    assert(chars_of(cells(marked)) == text);
    assert(cells(marked).len() == text.len());
    lemma_search_paints_matches(marked, dl.search_matches@, search, i);
    assert(Seq::new(cells(marked).len(), |j: int| cells(marked)[j].0) =~= text);
}

/// A line without syntax colors shows its content, character by character:
/// additions, deletions and context each in the theme's style for them, changed
/// words of additions and deletions on the theme's background for them, and
/// search matches painted over both.
pub proof fn lemma_plain_line_shows_its_content(
    theme: Theme,
    dl: DiffLine,
    words: Seq<Range<usize>>,
    search: Option<Style>,
)
    requires
        dl.highlighted_spans is None,
    ensures
        cells(content_runs(theme, dl, words, search)).len() == dl.content@.len(),
        forall|i: int|
            0 <= i < dl.content@.len() ==> (#[trigger] cells(
                content_runs(theme, dl, words, search),
            )[i]) == (
                dl.content@[i],
                line_style(
                    theme,
                    dl,
                    origin_style(theme, dl.origin),
                    starts_in(words, dl.content@, i),
                    search,
                    starts_in(dl.search_matches@, dl.content@, i),
                ),
            ),
{
    let own = origin_style(theme, dl.origin);
    let source = source_runs(theme, dl);
    assert(source =~= Seq::<Run>::empty().push((dl.content@, own)));
    lemma_push_run(Seq::empty(), (dl.content@, own));
    assert(cells(source) =~= styled(dl.content@, own));
    assert(chars_of(cells(source)) =~= dl.content@);
    assert forall|i: int| 0 <= i < dl.content@.len() implies (#[trigger] cells(
        content_runs(theme, dl, words, search),
    )[i]) == (
        dl.content@[i],
        line_style(
            theme,
            dl,
            own,
            starts_in(words, dl.content@, i),
            search,
            starts_in(dl.search_matches@, dl.content@, i),
        ),
    ) by {
        lemma_line_layers(theme, dl, words, search, i);
    }
    lemma_highlights_keep_text(theme, dl, words, search);
    assert(chars_of(cells(content_runs(theme, dl, words, search))).len() == dl.content@.len());
}

/// How many characters the first `n` styled texts hold.
pub open spec fn chars_before(pairs: Seq<(Style, String)>, n: int) -> int
    decreases n,
{
    if n <= 0 {
        0
    } else {
        chars_before(pairs, n - 1) + pairs[n - 1].1@.len()
    }
}

/// The cells of styled texts in a row.
proof fn lemma_pairs_in_a_row(
    row: Seq<Run>,
    pairs: Seq<(Style, String)>,
    n: int,
    p: int,
    j: int,
)
    requires
        0 <= p < n <= pairs.len() == row.len(),
        0 <= j < pairs[p].1@.len(),
        forall|p: int| 0 <= p < row.len() ==> #[trigger] row[p] == (pairs[p].1@, pairs[p].0),
    ensures
        cells(row.take(n)).len() == chars_before(pairs, n),
        0 <= chars_before(pairs, p) + j < chars_before(pairs, n),
        cells(row.take(n))[chars_before(pairs, p) + j] == (pairs[p].1@[j], pairs[p].0),
    decreases n,
{
    lemma_cells_count(row, pairs, n - 1);
    lemma_chars_before_grows(pairs, p);
    assert(row.take(n) =~= row.take(n - 1).push(row[n - 1]));
    lemma_push_run(row.take(n - 1), row[n - 1]);
    if p < n - 1 {
        lemma_pairs_in_a_row(row, pairs, n - 1, p, j);
    }
}

proof fn lemma_cells_count(row: Seq<Run>, pairs: Seq<(Style, String)>, n: int)
    requires
        0 <= n <= pairs.len() == row.len(),
        forall|p: int| 0 <= p < row.len() ==> #[trigger] row[p] == (pairs[p].1@, pairs[p].0),
    ensures
        cells(row.take(n)).len() == chars_before(pairs, n),
    decreases n,
{
    if n > 0 {
        lemma_cells_count(row, pairs, n - 1);
        assert(row.take(n) =~= row.take(n - 1).push(row[n - 1]));
        lemma_push_run(row.take(n - 1), row[n - 1]);
    } else {
        assert(row.take(0) =~= Seq::<Run>::empty());
    }
}

proof fn lemma_chars_before_grows(pairs: Seq<(Style, String)>, n: int)
    ensures
        0 <= chars_before(pairs, n),
    decreases n,
{
    if n > 0 {
        lemma_chars_before_grows(pairs, n - 1);
    }
}

/// A line in syntax colors shows its styled texts in a row, character by
/// character and in their own styles, with changed words and search matches
/// painted as on any line.
pub proof fn lemma_colored_line_shows_its_spans(
    theme: Theme,
    dl: DiffLine,
    words: Seq<Range<usize>>,
    search: Option<Style>,
    p: int,
    j: int,
)
    requires
        dl.highlighted_spans is Some,
        0 <= p < dl.highlighted_spans->0@.len(),
        0 <= j < dl.highlighted_spans->0@[p].1@.len(),
    ensures
        ({
            let pairs = dl.highlighted_spans->0@;
            let shown = cells(content_runs(theme, dl, words, search));
            let text = Seq::new(shown.len(), |i: int| shown[i].0);
            let at = chars_before(pairs, p) + j;
            &&& shown.len() == chars_before(pairs, pairs.len() as int)
            &&& 0 <= at < shown.len()
            &&& shown[at] == (
                pairs[p].1@[j],
                line_style(
                    theme,
                    dl,
                    pairs[p].0,
                    starts_in(words, text, at),
                    search,
                    starts_in(dl.search_matches@, text, at),
                ),
            )
        }),
{
    let pairs = dl.highlighted_spans->0@;
    let source = source_runs(theme, dl);
    let shown = cells(content_runs(theme, dl, words, search));
    let at = chars_before(pairs, p) + j;
    lemma_pairs_in_a_row(source, pairs, pairs.len() as int, p, j);
    assert(source.take(pairs.len() as int) =~= source);
    lemma_line_layers(theme, dl, words, search, at);
    lemma_highlights_keep_text(theme, dl, words, search);
    assert(Seq::new(shown.len(), |i: int| shown[i].0) =~= chars_of(cells(source)));
}

/// A column goes on after its text in the style of the line: the theme's style
/// for its origin, or, where an addition or deletion is in syntax colors, the
/// theme's color on the theme's background.
pub proof fn lemma_column_goes_on_in_its_style(theme: Theme, dl: DiffLine, origin: LineOrigin)
    ensures
        dl.highlighted_spans is None || origin == LineOrigin::Context ==> pad_style(
            theme,
            dl,
            origin,
        ) == origin_style(theme, origin),
        dl.highlighted_spans is Some && origin == LineOrigin::Addition ==> pad_style(
            theme,
            dl,
            origin,
        ) == (Style {
            fg: Some(theme.diff_add),
            bg: Some(theme.syntax_add_bg),
            add_modifier: 0,
            sub_modifier: 0,
        }),
        dl.highlighted_spans is Some && origin == LineOrigin::Deletion ==> pad_style(
            theme,
            dl,
            origin,
        ) == (Style {
            fg: Some(theme.diff_del),
            bg: Some(theme.syntax_del_bg),
            add_modifier: 0,
            sub_modifier: 0,
        }),
{
}

/// Padding cuts nothing off and adds nothing but spaces in its style, one for
/// each column that is missing.
pub proof fn lemma_padding_is_spaces(row: Seq<Run>, columns: nat, target: int, style: Style, i: int)
    requires
        0 <= i < cells(padded_runs(row, columns, target, style)).len(),
    ensures
        cells(padded_runs(row, columns, target, style)).len() == cells(row).len() + (if columns
            < target {
            target - columns
        } else {
            0
        }),
        cells(padded_runs(row, columns, target, style))[i] == (if i < cells(row).len() {
            cells(row)[i]
        } else {
            (' ', style)
        }),
{
    if columns < target {
        lemma_push_run(row, (blanks(target - columns), style));
    }
}

/// What digits say in decimal.
pub open spec fn value(digits: Seq<char>) -> int
    decreases digits.len(),
{
    if digits.len() == 0 {
        0
    } else {
        10 * value(digits.drop_last()) + (digits.last() as int - '0' as int)
    }
}

/// A number in decimal is digits that say the number, without a leading zero.
pub proof fn lemma_decimal_says_the_number(n: int)
    requires
        0 <= n,
    ensures
        value(decimal(n)) == n,
        decimal(n).len() > 0,
        forall|i: int| 0 <= i < decimal(n).len() ==> '0' <= #[trigger] decimal(n)[i] <= '9',
        decimal(n).len() > 1 ==> decimal(n)[0] != '0',
    decreases n,
{
    assert(value(Seq::<char>::empty()) == 0);
    if n >= 10 {
        lemma_decimal_says_the_number(n / 10);
        let before = decimal(n / 10);
        assert(decimal(n).drop_last() =~= before);
        if before.len() == 1 {
            assert(before.drop_last() =~= Seq::<char>::empty());
            assert(value(before) == before[0] as int - '0' as int);
        }
    } else {
        assert(decimal(n).drop_last() =~= Seq::<char>::empty());
    }
}

/// A line number stands at the right end of its column, behind spaces; it is
/// never cut, and a side without a line has spaces alone.
pub proof fn lemma_number_ends_its_column(lineno: Option<u32>, width: int)
    requires
        0 <= width,
    ensures
        lineno is None ==> number_text(lineno, width).len() == width,
        lineno is None ==> forall|i: int|
            0 <= i < width ==> #[trigger] number_text(lineno, width)[i] == ' ',
        lineno is Some ==> ({
            let digits = decimal(lineno->0 as int);
            let text = number_text(lineno, width);
            &&& text.len() == (if digits.len() < width {
                width
            } else {
                digits.len() as int
            })
            &&& text.skip(text.len() - digits.len()) == digits
            &&& forall|i: int| 0 <= i < text.len() - digits.len() ==> #[trigger] text[i] == ' '
        }),
{
    if let Some(n) = lineno {
        let digits = decimal(n as int);
        let text = number_text(lineno, width);
        assert(text.skip(text.len() - digits.len()) =~= digits);
    }
}

/// The indicator is a triangle on the cursor's row and a space on any other.
pub proof fn lemma_indicator_points_at_the_cursor(row: int, cursor: int)
    ensures
        indicator_text(row, cursor).len() == 1,
        row == cursor <==> indicator_text(row, cursor)[0] == '\u{25b6}',
        row != cursor <==> indicator_text(row, cursor)[0] == ' ',
{
}

/// Whether the cells from `from` on are a line number, a space and the marker
/// of its side, and nothing more.
pub open spec fn ends_in_number(
    row: Seq<Run>,
    from: int,
    side: SideSpec,
    number_style: Style,
    lw: int,
) -> bool {
    let shown = cells(row);
    let number = number_text(side.lineno, lw);
    &&& shown.len() == from + number.len() + 2
    &&& forall|i: int|
        0 <= i < number.len() ==> shown[from + i] == (#[trigger] number[i], number_style)
    &&& shown[from + number.len()] == (' ', number_style)
    &&& shown.last() == (
        if side.marker == Marker::Bar {
            '\u{258c}'
        } else {
            ' '
        },
        side.marker_style,
    )
}

/// Left of the left column stand the indicator, the line number, a space and
/// the marker; left of the right column the divider between two spaces, and
/// then the same.
pub proof fn lemma_prefixes_show_numbers(
    theme: Theme,
    row: int,
    cursor: int,
    side: SideSpec,
    number_style: Style,
    lw: int,
)
    ensures
        ({
            let left = left_prefix_runs(
                theme,
                indicator_text(row, cursor),
                side,
                number_style,
                lw,
            );
            &&& cells(left)[0] == (
                indicator_text(row, cursor)[0],
                theme.current_line_indicator_style,
            )
            &&& ends_in_number(left, 1, side, number_style, lw)
        }),
        ({
            let right = right_prefix_runs(theme, side, number_style, lw);
            &&& cells(right)[0] == (' ', theme.dim_style)
            &&& cells(right)[1] == ('\u{2502}', theme.dim_style)
            &&& cells(right)[2] == (' ', theme.dim_style)
            &&& ends_in_number(right, 3, side, number_style, lw)
        }),
{
    reveal_with_fuel(cells, 4);
    let left = left_prefix_runs(theme, indicator_text(row, cursor), side, number_style, lw);
    let right = right_prefix_runs(theme, side, number_style, lw);
    let number = number_text(side.lineno, lw);
    let mark = if side.marker == Marker::Bar {
        '\u{258c}'
    } else {
        ' '
    };
    let tail = styled(number, number_style).push((' ', number_style)).push(
        (mark, side.marker_style),
    );
    assert(cells(left) =~= styled(indicator_text(row, cursor), theme.current_line_indicator_style)
        + tail);
    assert(cells(right) =~= styled(seq![' ', '\u{2502}', ' '], theme.dim_style) + tail);
}

} // verus!
