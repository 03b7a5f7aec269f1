//! Painting byte ranges of styled text.

use crate::style::{
    cells, chars_of, lemma_cells_concat, lemma_push_run, push_text, runs, styled, Cell, Color,
    Run, Span, Style,
};
use crate::text::{
    byte_len, byte_offset, lemma_at_least_one_byte, lemma_encode_concat, lemma_offsets, slice,
};
use crate::word_diff::marks;
use std::ops::Range;
use vstd::prelude::*;
use vstd::utf8::{encode_scalar, encode_utf8};

verus! {

/// What painting does to a style.
#[derive(Clone, Copy, Debug, PartialEq, Eq)]
pub enum Paint {
    /// Replace the background alone.
    Background(Color),
    /// Paint a style over what is there.
    Over(Style),
}

impl Paint {
    /// The style after painting.
    pub open spec fn painted(self, style: Style) -> Style {
        match self {
            Paint::Background(color) => Style { bg: Some(color), ..style },
            Paint::Over(over) => style.patched(over),
        }
    }

    /// Paint a style.
    pub fn apply(self, style: Style) -> (painted: Style)
        ensures
            painted == self.painted(style),
    {
        match self {
            Paint::Background(color) => style.bg(color),
            Paint::Over(over) => style.patch(over),
        }
    }
}

/// `row` with every character painted whose first byte, counted from `base`
/// at the start of the row, lies in one of `ranges`.
pub open spec fn painted_cells(
    row: Seq<Cell>,
    base: int,
    ranges: Seq<Range<usize>>,
    paint: Paint,
) -> Seq<Cell> {
    Seq::new(
        row.len(),
        |i: int|
            if marks(ranges, base + byte_offset(chars_of(row), i)) {
                (row[i].0, paint.painted(row[i].1))
            } else {
                row[i]
            },
    )
}

/// Whether a byte lies in one of `ranges`.
fn is_marked(ranges: &Vec<Range<usize>>, at: u128) -> (yes: bool)
    ensures
        yes == marks(ranges@, at as int),
{
    let mut k: usize = 0;
    while k < ranges.len()
        invariant
            k <= ranges.len(),
            forall|j: int|
                0 <= j < k ==> !((#[trigger] ranges@[j]).start <= at < ranges@[j].end),
        decreases ranges.len() - k,
    {
        if ranges[k].start as u128 <= at && at < ranges[k].end as u128 {
            return true;
        }
        k = k + 1;
    }
    false
}

/// The bytes that a character takes.
fn char_bytes(ch: char) -> (len: usize)
    ensures
        len == encode_scalar(ch as u32).len(),
{
    let code = ch as u32;
    if code <= 0x7F {
        1
    } else if code <= 0x7FF {
        2
    } else if code <= 0xFFFF {
        3
    } else {
        4
    }
}

/// The offset of the next character is past the bytes of this one.
proof fn lemma_next_offset(chars: Seq<char>, i: int)
    requires
        0 <= i < chars.len(),
    ensures
        byte_offset(chars, i + 1) == byte_offset(chars, i) + encode_scalar(chars[i] as u32).len(),
        byte_offset(chars, 0) == 0,
{
    let one = seq![chars[i]];
    assert(chars.take(i + 1) =~= chars.take(i) + one);
    lemma_encode_concat(chars.take(i), one);
    assert(one.drop_first() =~= Seq::<char>::empty());
    assert(encode_utf8(one.drop_first()).len() == 0);
    assert(encode_utf8(one) =~= encode_scalar(chars[i] as u32));
    assert(chars.take(0) =~= Seq::<char>::empty());
}

/// Whether the character with index `i` is painted, in a text whose first byte
/// has offset `base`.
pub open spec fn is_painted(text: Seq<char>, base: int, ranges: Seq<Range<usize>>, i: int) -> bool {
    marks(ranges, base + byte_offset(text, i))
}

/// The style of the character with index `i`.
pub open spec fn shown_style(
    source: Run,
    base: int,
    ranges: Seq<Range<usize>>,
    paint: Paint,
    i: int,
) -> Style {
    if is_painted(source.0, base, ranges, i) {
        paint.painted(source.1)
    } else {
        source.1
    }
}

/// The first `n` characters of a run, cut where painting starts and where it
/// ends.
pub open spec fn first_pieces(
    source: Run,
    base: int,
    ranges: Seq<Range<usize>>,
    paint: Paint,
    n: int,
) -> Seq<Run>
    decreases n,
{
    if n <= 0 {
        Seq::empty()
    } else {
        let before = first_pieces(source, base, ranges, paint, n - 1);
        let style = shown_style(source, base, ranges, paint, n - 1);
        if n > 1 && is_painted(source.0, base, ranges, n - 1) == is_painted(
            source.0,
            base,
            ranges,
            n - 2,
        ) {
            before.drop_last().push((before.last().0.push(source.0[n - 1]), style))
        } else {
            before.push((seq![source.0[n - 1]], style))
        }
    }
}

/// A run cut where painting starts and where it ends; a run without text stays
/// as it is.
pub open spec fn pieces(
    source: Run,
    base: int,
    ranges: Seq<Range<usize>>,
    paint: Paint,
) -> Seq<Run> {
    if source.0.len() == 0 {
        seq![source]
    } else {
        first_pieces(source, base, ranges, paint, source.0.len() as int)
    }
}

/// The bytes of the first `n` runs.
pub open spec fn bytes_before(row: Seq<Run>, n: int) -> int
    decreases n,
{
    if n <= 0 {
        0
    } else {
        bytes_before(row, n - 1) + encode_utf8(row[n - 1].0).len()
    }
}

/// The first `n` runs of `row`, each cut and painted.
pub open spec fn first_painted(
    row: Seq<Run>,
    ranges: Seq<Range<usize>>,
    paint: Paint,
    n: int,
) -> Seq<Run>
    decreases n,
{
    if n <= 0 {
        Seq::empty()
    } else {
        first_painted(row, ranges, paint, n - 1) + pieces(
            row[n - 1],
            bytes_before(row, n - 1),
            ranges,
            paint,
        )
    }
}

/// `row` with every character painted whose first byte lies in one of
/// `ranges`; runs are cut where painting starts and where it ends, and nowhere
/// else.
pub open spec fn painted_runs(row: Seq<Run>, ranges: Seq<Range<usize>>, paint: Paint) -> Seq<Run> {
    first_painted(row, ranges, paint, row.len() as int)
}

/// One more character of the same kind extends the last piece.
proof fn lemma_extend_piece(
    source: Run,
    base: int,
    ranges: Seq<Range<usize>>,
    paint: Paint,
    first: int,
    n: int,
)
    requires
        0 <= first < n < source.0.len(),
        first_pieces(source, base, ranges, paint, n) == first_pieces(
            source,
            base,
            ranges,
            paint,
            first,
        ).push((source.0.subrange(first, n), shown_style(source, base, ranges, paint, n - 1))),
        is_painted(source.0, base, ranges, n) == is_painted(source.0, base, ranges, n - 1),
    ensures
        first_pieces(source, base, ranges, paint, n + 1) == first_pieces(
            source,
            base,
            ranges,
            paint,
            first,
        ).push((source.0.subrange(first, n + 1), shown_style(source, base, ranges, paint, n))),
{
    let before = first_pieces(source, base, ranges, paint, first);
    let so_far = first_pieces(source, base, ranges, paint, n);
    assert(so_far.drop_last() =~= before);
    assert(source.0.subrange(first, n + 1) =~= source.0.subrange(first, n).push(source.0[n]));
}

/// Append `content` to `out` in `style`, painting what lies in `ranges`; its
/// first byte has offset `base`.
fn paint_text(
    content: &str,
    style: Style,
    base: u128,
    ranges: &Vec<Range<usize>>,
    paint: Paint,
    out: &mut Vec<Span>,
)
    requires
        base + encode_utf8(content@).len() <= u128::MAX,
    ensures
        runs(final(out)@) == runs(old(out)@) + pieces(
            (content@, style),
            base as int,
            ranges@,
            paint,
        ),
{
    let ghost source: Run = (content@, style);
    let ghost start = runs(out@);
    let ghost mut first: int = 0;
    let mut run_start: usize = 0;
    let mut run_marked: bool = false;
    let mut at: usize = 0;
    let len: usize = byte_len(content);
    if len == 0 {
        proof {
            lemma_at_least_one_byte(content@);
        }
        push_text(out, content, style);
        assert(runs(out@) =~= start + pieces(source, base as int, ranges@, paint));
        return;
    }
    proof {
        lemma_offsets(content@, 0, 0);
        assert(content@.take(0) =~= Seq::<char>::empty());
        assert(start + Seq::<Run>::empty() =~= start);
    }
    for ch in chars: content.chars()
        invariant
            chars.seq() == content@,
            source == (content@, style),
            base + encode_utf8(content@).len() <= u128::MAX,
            len == encode_utf8(content@).len(),
            0 <= first <= chars.index() <= content@.len(),
            chars.index() > 0 ==> first < chars.index(),
            run_start == byte_offset(content@, first),
            at == byte_offset(content@, chars.index()),
            runs(out@) == start + first_pieces(source, base as int, ranges@, paint, first),
            chars.index() > 0 ==> run_marked == is_painted(
                content@,
                base as int,
                ranges@,
                chars.index() - 1,
            ),
            chars.index() > 0 ==> first_pieces(
                source,
                base as int,
                ranges@,
                paint,
                chars.index(),
            ) == first_pieces(source, base as int, ranges@, paint, first).push(
                (
                    content@.subrange(first, chars.index()),
                    shown_style(source, base as int, ranges@, paint, chars.index() - 1),
                ),
            ),
    {
        let ghost i = chars.index();
        proof {
            lemma_next_offset(content@, i);
            lemma_offsets(content@, i, i + 1);
            lemma_offsets(content@, first, i);
        }
        let marked = is_marked(ranges, base + at as u128);
        if marked != run_marked {
            if run_start < at {
                push_run(
                    content,
                    run_start,
                    at,
                    style,
                    run_marked,
                    paint,
                    out,
                    Ghost(first),
                    Ghost(i),
                );
                proof {
                    assert(runs(out@) =~= start + first_pieces(
                        source,
                        base as int,
                        ranges@,
                        paint,
                        i,
                    ));
                }
            }
            proof {
                first = i;
            }
            run_start = at;
            run_marked = marked;
        }
        proof {
            if first < i {
                lemma_extend_piece(source, base as int, ranges@, paint, first, i);
            } else {
                assert(content@.subrange(i, i + 1) =~= seq![content@[i]]);
            }
        }
        at = at + char_bytes(ch);
    }
    let ghost i = content@.len() as int;
    proof {
        lemma_offsets(content@, first, i);
        if i == 0 {
            assert(encode_utf8(content@).len() == 0);
        }
    }
    push_run(content, run_start, at, style, run_marked, paint, out, Ghost(first), Ghost(i));
    assert(runs(out@) =~= start + pieces(source, base as int, ranges@, paint));
}

/// Append the part of `content` between two character offsets.
fn push_run(
    content: &str,
    start: usize,
    end: usize,
    style: Style,
    marked: bool,
    paint: Paint,
    out: &mut Vec<Span>,
    Ghost(i): Ghost<int>,
    Ghost(j): Ghost<int>,
)
    requires
        0 <= i <= j <= content@.len(),
        start == byte_offset(content@, i),
        end == byte_offset(content@, j),
    ensures
        runs(final(out)@) == runs(old(out)@).push(
            (
                content@.subrange(i, j),
                if marked {
                    paint.painted(style)
                } else {
                    style
                },
            ),
        ),
{
    proof {
        lemma_offsets(content@, i, j);
    }
    let text = slice(content, &Range { start, end });
    let style = if marked {
        paint.apply(style)
    } else {
        style
    };
    push_text(out, text, style);
}

/// As many strings as a vector holds have fewer bytes than a `u128` counts.
proof fn lemma_bytes_fit(k: int, base: int, len: int)
    requires
        0 <= k < usize::MAX,
        0 <= base <= k * usize::MAX,
        0 <= len <= usize::MAX,
    ensures
        base + len <= (k + 1) * usize::MAX,
        base + len <= u128::MAX,
{
    let m = usize::MAX as int;
    assert((k + 1) * m == k * m + m) by (nonlinear_arith);
    assert((k + 1) * m <= m * m) by (nonlinear_arith)
        requires
            0 <= k < m,
    ;
    assert(m * m <= 0xffff_ffff_ffff_ffff * 0xffff_ffff_ffff_ffff) by (nonlinear_arith)
        requires
            0 <= m <= 0xffff_ffff_ffff_ffff,
    ;
}

/// `spans` with every character painted whose first byte lies in one of
/// `ranges`.
pub fn paint_ranges(spans: &Vec<Span>, ranges: &Vec<Range<usize>>, paint: Paint) -> (out: Vec<Span>)
    ensures
        runs(out@) == painted_runs(runs(spans@), ranges@, paint),
{
    let ghost row = runs(spans@);
    let mut out: Vec<Span> = Vec::new();
    let mut base: u128 = 0;
    let mut k: usize = 0;
    assert(runs(out@) =~= Seq::<Run>::empty());
    while k < spans.len()
        invariant
            k <= spans.len(),
            row == runs(spans@),
            base <= k * usize::MAX,
            base == bytes_before(row, k as int),
            runs(out@) == first_painted(row, ranges@, paint, k as int),
        decreases spans.len() - k,
    {
        let text = spans[k].content.as_str();
        let len: usize = byte_len(text);
        proof {
            lemma_bytes_fit(k as int, base as int, len as int);
        }
        paint_text(text, spans[k].style, base, ranges, paint, &mut out);
        base = base + len as u128;
        k = k + 1;
    }
    out
}

/// Painting a row of text in two parts paints both parts.
proof fn lemma_painted_concat(
    a: Seq<Cell>,
    b: Seq<Cell>,
    base: int,
    ranges: Seq<Range<usize>>,
    paint: Paint,
)
    ensures
        painted_cells(a + b, base, ranges, paint) == painted_cells(a, base, ranges, paint)
            + painted_cells(b, base + encode_utf8(chars_of(a)).len(), ranges, paint),
{
    let ca = chars_of(a);
    let cb = chars_of(b);
    assert(chars_of(a + b) =~= ca + cb);
    assert forall|i: int| 0 <= i < a.len() implies byte_offset(ca + cb, i) == byte_offset(
        ca,
        i,
    ) by {
        assert((ca + cb).take(i) =~= ca.take(i));
    }
    assert forall|i: int| 0 <= i < b.len() implies byte_offset(ca + cb, a.len() + i) == encode_utf8(
        ca,
    ).len() + byte_offset(cb, i) by {
        assert((ca + cb).take(a.len() + i) =~= ca + cb.take(i));
        lemma_encode_concat(ca, cb.take(i));
    }
    assert(painted_cells(a + b, base, ranges, paint) =~= painted_cells(a, base, ranges, paint)
        + painted_cells(b, base + encode_utf8(ca).len(), ranges, paint));
}

/// The pieces of a run show its cells, painted.
proof fn lemma_pieces_cells(
    source: Run,
    base: int,
    ranges: Seq<Range<usize>>,
    paint: Paint,
    n: int,
)
    requires
        0 <= n <= source.0.len(),
    ensures
        cells(first_pieces(source, base, ranges, paint, n)) == painted_cells(
            styled(source.0, source.1),
            base,
            ranges,
            paint,
        ).take(n),
        n > 0 ==> first_pieces(source, base, ranges, paint, n).len() > 0,
        n > 0 ==> first_pieces(source, base, ranges, paint, n).last().1 == shown_style(
            source,
            base,
            ranges,
            paint,
            n - 1,
        ),
    decreases n,
{
    let goal = painted_cells(styled(source.0, source.1), base, ranges, paint);
    assert(chars_of(styled(source.0, source.1)) =~= source.0);
    let now = first_pieces(source, base, ranges, paint, n);
    if n > 0 {
        lemma_pieces_cells(source, base, ranges, paint, n - 1);
        let before = first_pieces(source, base, ranges, paint, n - 1);
        let style = shown_style(source, base, ranges, paint, n - 1);
        let ch = source.0[n - 1];
        assert(goal[n - 1] == (ch, style));
        if n > 1 && is_painted(source.0, base, ranges, n - 1) == is_painted(
            source.0,
            base,
            ranges,
            n - 2,
        ) {
            let last = before.last();
            lemma_push_run(before.drop_last(), (last.0.push(ch), style));
            assert(styled(last.0.push(ch), style) =~= styled(last.0, last.1).push((ch, style)));
            assert(cells(now) =~= cells(before).push((ch, style)));
        } else {
            lemma_push_run(before, (seq![ch], style));
            assert(cells(now) =~= cells(before).push((ch, style)));
        }
        assert(goal.take(n) =~= goal.take(n - 1).push(goal[n - 1]));
    } else {
        assert(goal.take(0) =~= Seq::<Cell>::empty());
    }
}

/// Cell by cell, painting changes the style of the characters whose first byte
/// lies in a range, and nothing else.
pub proof fn lemma_painted_runs_cells(row: Seq<Run>, ranges: Seq<Range<usize>>, paint: Paint)
    ensures
        cells(painted_runs(row, ranges, paint)) == painted_cells(cells(row), 0, ranges, paint),
{
    lemma_first_painted_cells(row, ranges, paint, row.len() as int);
    assert(row.take(row.len() as int) =~= row);
}

proof fn lemma_first_painted_cells(
    row: Seq<Run>,
    ranges: Seq<Range<usize>>,
    paint: Paint,
    n: int,
)
    requires
        0 <= n <= row.len(),
    ensures
        bytes_before(row, n) == encode_utf8(chars_of(cells(row.take(n)))).len(),
        cells(first_painted(row, ranges, paint, n)) == painted_cells(
            cells(row.take(n)),
            0,
            ranges,
            paint,
        ),
    decreases n,
{
    if n > 0 {
        lemma_first_painted_cells(row, ranges, paint, n - 1);
        let source = row[n - 1];
        let base = bytes_before(row, n - 1);
        let before = cells(row.take(n - 1));
        let here = styled(source.0, source.1);
        assert(row.take(n).drop_last() =~= row.take(n - 1));
        assert(chars_of(here) =~= source.0);
        assert(chars_of(cells(row.take(n))) =~= chars_of(before) + chars_of(here));
        lemma_encode_concat(chars_of(before), chars_of(here));
        lemma_painted_concat(before, here, 0, ranges, paint);
        lemma_cells_concat(
            first_painted(row, ranges, paint, n - 1),
            pieces(source, base, ranges, paint),
        );
        let goal = painted_cells(here, base, ranges, paint);
        if source.0.len() == 0 {
            lemma_push_run(Seq::empty(), source);
            assert(Seq::<Run>::empty().push(source) =~= seq![source]);
            assert(cells(seq![source]) =~= goal);
        } else {
            lemma_pieces_cells(source, base, ranges, paint, source.0.len() as int);
            assert(goal.take(source.0.len() as int) =~= goal);
        }
    } else {
        assert(row.take(0) =~= Seq::<Run>::empty());
        assert(chars_of(cells(row.take(0))) =~= Seq::<char>::empty());
        assert(painted_cells(cells(row.take(0)), 0, ranges, paint) =~= Seq::<Cell>::empty());
    }
}

/// Painting where nothing is marked leaves a row as it is, run by run.
pub proof fn lemma_nothing_painted(row: Seq<Run>, ranges: Seq<Range<usize>>, paint: Paint)
    requires
        forall|at: int| !#[trigger] marks(ranges, at),
    ensures
        painted_runs(row, ranges, paint) == row,
{
    lemma_nothing_painted_first(row, ranges, paint, row.len() as int);
    assert(row.take(row.len() as int) =~= row);
}

proof fn lemma_nothing_painted_first(
    row: Seq<Run>,
    ranges: Seq<Range<usize>>,
    paint: Paint,
    n: int,
)
    requires
        0 <= n <= row.len(),
        forall|at: int| !#[trigger] marks(ranges, at),
    ensures
        first_painted(row, ranges, paint, n) == row.take(n),
    decreases n,
{
    if n > 0 {
        lemma_nothing_painted_first(row, ranges, paint, n - 1);
        let source = row[n - 1];
        if source.0.len() > 0 {
            lemma_one_piece(
                source,
                bytes_before(row, n - 1),
                ranges,
                paint,
                source.0.len() as int,
            );
            assert(source.0.take(source.0.len() as int) =~= source.0);
        }
        assert(row.take(n) =~= row.take(n - 1) + seq![source]);
    }
    assert(first_painted(row, ranges, paint, n) =~= row.take(n));
}

proof fn lemma_one_piece(
    source: Run,
    base: int,
    ranges: Seq<Range<usize>>,
    paint: Paint,
    n: int,
)
    requires
        0 < n <= source.0.len(),
        forall|at: int| !#[trigger] marks(ranges, at),
    ensures
        first_pieces(source, base, ranges, paint, n) == seq![(source.0.take(n), source.1)],
    decreases n,
{
    assert(!is_painted(source.0, base, ranges, n - 1));
    if n > 1 {
        lemma_one_piece(source, base, ranges, paint, n - 1);
        assert(!is_painted(source.0, base, ranges, n - 2));
        assert(source.0.take(n) =~= source.0.take(n - 1).push(source.0[n - 1]));
    } else {
        assert(first_pieces(source, base, ranges, paint, 0) =~= Seq::<Run>::empty());
        assert(source.0.take(1) =~= seq![source.0[0]]);
    }
    assert(first_pieces(source, base, ranges, paint, n) =~= seq![
        (source.0.take(n), source.1),
    ]);
}

/// The characters of the first `k` runs, counted.
pub open spec fn text_len(row: Seq<Run>, k: int) -> int
    decreases k,
{
    if k <= 0 {
        0
    } else {
        text_len(row, k - 1) + row[k - 1].0.len()
    }
}

/// A run is cut only where painting starts or ends: between two of its pieces
/// one character is painted and the other is not.
pub proof fn lemma_cuts_at_mark_ends(
    source: Run,
    base: int,
    ranges: Seq<Range<usize>>,
    paint: Paint,
    k: int,
)
    requires
        0 < k < pieces(source, base, ranges, paint).len(),
    ensures
        ({
            let at = text_len(pieces(source, base, ranges, paint), k);
            &&& 0 < at < source.0.len()
            &&& is_painted(source.0, base, ranges, at) != is_painted(
                source.0,
                base,
                ranges,
                at - 1,
            )
        }),
{
    lemma_cuts_first(source, base, ranges, paint, source.0.len() as int, k);
}

proof fn lemma_cuts_first(
    source: Run,
    base: int,
    ranges: Seq<Range<usize>>,
    paint: Paint,
    n: int,
    k: int,
)
    requires
        0 <= n <= source.0.len(),
        0 <= k <= first_pieces(source, base, ranges, paint, n).len(),
    ensures
        n > 0 ==> first_pieces(source, base, ranges, paint, n).len() > 0,
        ({
            let now = first_pieces(source, base, ranges, paint, n);
            let at = text_len(now, k);
            &&& k == now.len() ==> at == n
            &&& 0 < k < now.len() ==> 0 < at < n && is_painted(source.0, base, ranges, at)
                != is_painted(source.0, base, ranges, at - 1)
        }),
    decreases n,
{
    if n > 0 {
        let before = first_pieces(source, base, ranges, paint, n - 1);
        let now = first_pieces(source, base, ranges, paint, n);
        let m = before.len() as int;
        lemma_cuts_first(source, base, ranges, paint, n - 1, m);
        if n > 1 && is_painted(source.0, base, ranges, n - 1) == is_painted(
            source.0,
            base,
            ranges,
            n - 2,
        ) {
            lemma_text_len_same(before, now, m - 1);
            if k < m {
                lemma_cuts_first(source, base, ranges, paint, n - 1, k);
                lemma_text_len_same(before, now, k);
            }
        } else {
            lemma_text_len_same(before, now, m);
            if k <= m {
                lemma_cuts_first(source, base, ranges, paint, n - 1, k);
                lemma_text_len_same(before, now, k);
            }
            if k == m && m > 0 {
                assert(n > 1);
            }
        }
    }
}

/// The count depends on the first `k` runs alone.
proof fn lemma_text_len_same(a: Seq<Run>, b: Seq<Run>, k: int)
    requires
        k <= a.len(),
        k <= b.len(),
        forall|i: int| 0 <= i < k ==> #[trigger] a[i] == b[i],
    ensures
        text_len(a, k) == text_len(b, k),
    decreases k,
{
    if k > 0 {
        lemma_text_len_same(a, b, k - 1);
    }
}

} // verus!
