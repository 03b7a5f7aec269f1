//! What word diff promises of every line pair, said of the tokens and the
//! edit script alone.

use crate::edit_script::{
    covered, is_edit_script, myers_script, pairs_equal, tiles, DiffTag, EditOp, Side,
};
use crate::text::chars_in;
use crate::unicode::{char_is_alphanumeric, char_is_whitespace, grapheme_clusters, joined};
use crate::word_diff::{
    all_whitespace, ascending, changed_tokens, compared_tokens, covers, equal_tokens, kind_of,
    lemma_changed_or_equal, lemma_changed_tokens, lemma_cluster_offsets, lemma_compared_is_token,
    lemma_compared_within, lemma_covered_monotone, lemma_covers_within, lemma_marked_concat,
    lemma_merged, lemma_picked_within, lemma_token_starts, line_tokens, marked_count, marks,
    merged, non_whitespace_count, picked, range_texts, script_marks, starts_token, token_ranges,
    token_starts, within, word_marks, DiffWhitespaceMode, TokenKind,
};
use std::ops::Range;
use vstd::prelude::*;
use vstd::utf8::encode_utf8;

verus! {

/// Whether a token of one side takes part in an equal run.
pub open spec fn in_equal_run(ops: Seq<EditOp>, side: Side, t: int) -> bool {
    exists|i: int|
        0 <= i < ops.len() && (#[trigger] ops[i]).tag == DiffTag::Equal && match side {
            Side::Old => ops[i].old.start <= t < ops[i].old.end,
            Side::New => ops[i].new.start <= t < ops[i].new.end,
        }
}

/// How many characters of a text are not whitespace.
pub open spec fn ink(text: Seq<char>) -> nat {
    text.filter(|ch: char| !char_is_whitespace(ch)).len()
}

/// How many such characters the first `n` tokens hold, those in equal runs left
/// out.
pub open spec fn changed_ink(
    content: Seq<char>,
    tokens: Seq<Range<usize>>,
    ops: Seq<EditOp>,
    side: Side,
    n: int,
) -> nat
    decreases n,
{
    if n <= 0 {
        0
    } else {
        changed_ink(content, tokens, ops, side, n - 1) + if in_equal_run(ops, side, n - 1) {
            0
        } else {
            ink(chars_in(content, tokens[n - 1]))
        }
    }
}

/// Whether `ranges` mark every token of a line that lies outside the equal runs
/// of a script, end to end, and not a byte more.
pub open spec fn marks_changed(
    ranges: Seq<Range<usize>>,
    tokens: Seq<Range<usize>>,
    ops: Seq<EditOp>,
    side: Side,
) -> bool {
    &&& forall|t: int, at: int|
        #![trigger tokens[t], marks(ranges, at)]
        0 <= t < tokens.len() && tokens[t].start <= at < tokens[t].end && !in_equal_run(
            ops,
            side,
            t,
        ) ==> marks(ranges, at)
    &&& forall|at: int| #[trigger]
        marks(ranges, at) ==> exists|t: int|
            0 <= t < tokens.len() && (#[trigger] tokens[t]).start <= at < tokens[t].end
                && !in_equal_run(ops, side, t)
}

/// Whether `ranges` come in ascending order with bytes between them.
pub open spec fn spaced_out(ranges: Seq<Range<usize>>) -> bool {
    &&& forall|k: int| 0 <= k < ranges.len() ==> (#[trigger] ranges[k]).start < ranges[k].end
    &&& forall|j: int, k: int|
        0 <= j < k < ranges.len() ==> (#[trigger] ranges[j]).end < (#[trigger] ranges[k]).start
}

/// Whether `left` and `right` are what word diff owes a line pair: nothing
/// where exactly one line is empty or more than three fifths of the pair's ink
/// is in changed tokens, and otherwise every changed token of either line,
/// whatever the other line has.
pub open spec fn marks_the_difference(
    deletion: Seq<char>,
    addition: Seq<char>,
    whitespace_mode: DiffWhitespaceMode,
    left: Seq<Range<usize>>,
    right: Seq<Range<usize>>,
) -> bool {
    let ignore = whitespace_mode == DiffWhitespaceMode::IgnoreAll;
    let old = line_tokens(deletion, grapheme_clusters(deletion), ignore);
    let new = line_tokens(addition, grapheme_clusters(addition), ignore);
    let ops = myers_script(range_texts(deletion, old), range_texts(addition, new));
    let changed = changed_ink(deletion, old, ops, Side::Old, old.len() as int) + changed_ink(
        addition,
        new,
        ops,
        Side::New,
        new.len() as int,
    );
    let plain = (deletion.len() == 0) != (addition.len() == 0) || 5 * changed > 3 * (ink(deletion)
        + ink(addition));
    &&& plain ==> left.len() == 0 && right.len() == 0
    &&& !plain ==> marks_changed(left, old, ops, Side::Old)
    &&& !plain ==> marks_changed(right, new, ops, Side::New)
    &&& !plain && range_texts(deletion, old) != range_texts(addition, new) ==> left.len() > 0
        || right.len() > 0
    &&& spaced_out(left) && spaced_out(right)
}

/// The counted characters are the ones that are not whitespace.
pub proof fn lemma_count_is_ink(text: Seq<char>)
    ensures
        non_whitespace_count(text) == ink(text),
    decreases text.len(),
{
    reveal(Seq::filter);
    if text.len() > 0 {
        lemma_count_is_ink(text.drop_last());
    }
}

/// A text is plain whitespace where each of its characters is.
pub proof fn lemma_plain_whitespace(text: Seq<char>)
    ensures
        all_whitespace(text) <==> !(exists|i: int|
            0 <= i < text.len() && !char_is_whitespace(#[trigger] text[i])),
{
}

/// A token is left equal where it takes part in an equal run.
proof fn lemma_equal_is_run(ops: Seq<EditOp>, side: Side, len: int, n: int, t: int)
    requires
        tiles(ops, side, len),
        0 <= n <= ops.len(),
    ensures
        equal_tokens(ops, side, n).contains(t) <==> exists|i: int|
            0 <= i < n && (#[trigger] ops[i]).tag == DiffTag::Equal && ops[i].covers(side).start
                <= t < ops[i].covers(side).end,
    decreases n,
{
    if n > 0 {
        lemma_equal_is_run(ops, side, len, n - 1, t);
        let op = ops[n - 1];
        assert(op.count(side) >= 0);
        let before = equal_tokens(ops, side, n - 1);
        let now = equal_tokens(ops, side, n);
        if before.contains(t) {
            let i = choose|i: int|
                0 <= i < n - 1 && (#[trigger] ops[i]).tag == DiffTag::Equal && ops[i].covers(
                    side,
                ).start <= t < ops[i].covers(side).end;
            assert(ops[i].tag == DiffTag::Equal);
            let k = choose|k: int| 0 <= k < before.len() && before[k] == t;
            assert(now[k] == t);
        }
        if op.tag == DiffTag::Equal {
            let range = op.covers(side);
            if range.start <= t < range.end {
                assert(now[before.len() + (t - range.start)] == t);
            }
            if now.contains(t) {
                let k = choose|k: int| 0 <= k < now.len() && now[k] == t;
                if k < before.len() {
                    assert(before[k] == t);
                } else {
                    assert(t == range.start + (k - before.len()));
                    assert(ops[n - 1].covers(side).start <= t < ops[n - 1].covers(side).end);
                }
            }
        }
        if exists|i: int|
            0 <= i < n && (#[trigger] ops[i]).tag == DiffTag::Equal && ops[i].covers(side).start
                <= t < ops[i].covers(side).end {
            let i = choose|i: int|
                0 <= i < n && (#[trigger] ops[i]).tag == DiffTag::Equal && ops[i].covers(
                    side,
                ).start <= t < ops[i].covers(side).end;
            if i < n - 1 {
                assert(before.contains(t));
            }
            assert(now.contains(t));
        }
    }
}

/// A token changes where it takes part in no equal run.
proof fn lemma_changed_is_outside(ops: Seq<EditOp>, side: Side, len: int, t: int)
    requires
        tiles(ops, side, len),
        0 <= t < len,
    ensures
        changed_tokens(ops, side, ops.len() as int).contains(t) <==> !in_equal_run(ops, side, t),
{
    let n = ops.len() as int;
    lemma_changed_or_equal(ops, side, len, n, t);
    lemma_equal_is_run(ops, side, len, n, t);
    if in_equal_run(ops, side, t) {
        let i = choose|i: int|
            0 <= i < ops.len() && (#[trigger] ops[i]).tag == DiffTag::Equal && match side {
                Side::Old => ops[i].old.start <= t < ops[i].old.end,
                Side::New => ops[i].new.start <= t < ops[i].new.end,
            };
        assert(ops[i].covers(side).start <= t < ops[i].covers(side).end);
    }
    if equal_tokens(ops, side, n).contains(t) {
        let i = choose|i: int|
            0 <= i < n && (#[trigger] ops[i]).tag == DiffTag::Equal && ops[i].covers(side).start
                <= t < ops[i].covers(side).end;
        assert(in_equal_run(ops, side, t));
    }
}

/// A script's marks lie on the tokens outside equal runs, and on all of them.
proof fn lemma_script_marks_changed(
    content: Seq<char>,
    tokens: Seq<Range<usize>>,
    ops: Seq<EditOp>,
    side: Side,
)
    requires
        within(content, tokens),
        tiles(ops, side, tokens.len() as int),
    ensures
        marks_changed(script_marks(ops, side, tokens), tokens, ops, side),
        spaced_out(script_marks(ops, side, tokens)),
{
    let len = tokens.len() as int;
    let indices = changed_tokens(ops, side, ops.len() as int);
    let changed = picked(tokens, indices);
    let marked = script_marks(ops, side, tokens);
    lemma_changed_tokens(ops, side, len, ops.len() as int);
    lemma_picked_within(content, tokens, ops, side);
    lemma_merged(content, changed);
    assert forall|t: int, at: int|
        #![trigger tokens[t], marks(marked, at)]
        0 <= t < tokens.len() && tokens[t].start <= at < tokens[t].end && !in_equal_run(
            ops,
            side,
            t,
        ) implies marks(marked, at) by {
        lemma_changed_is_outside(ops, side, len, t);
        let k = choose|k: int| 0 <= k < indices.len() && indices[k] == t;
        assert(changed[k] == tokens[t]);
        assert(marks(changed, at));
    }
    assert forall|at: int| #[trigger] marks(marked, at) implies exists|t: int|
        0 <= t < tokens.len() && (#[trigger] tokens[t]).start <= at < tokens[t].end
            && !in_equal_run(ops, side, t) by {
        assert(marks(changed, at));
        let k = choose|k: int|
            0 <= k < changed.len() && (#[trigger] changed[k]).start <= at < changed[k].end;
        let t = indices[k];
        assert(indices.contains(t));
        lemma_changed_is_outside(ops, side, len, t);
        assert(tokens[t].start <= at < tokens[t].end);
    }
}

/// The ink of changed tokens up to a point, counted run by run.
proof fn lemma_changed_ink_counts(
    content: Seq<char>,
    tokens: Seq<Range<usize>>,
    ops: Seq<EditOp>,
    side: Side,
    n: int,
    k: int,
)
    requires
        tiles(ops, side, tokens.len() as int),
        0 <= n < ops.len(),
        0 <= k <= ops[n].count(side),
    ensures
        0 <= covered(ops, side, n),
        covered(ops, side, n) + ops[n].count(side) <= tokens.len(),
        changed_ink(content, tokens, ops, side, covered(ops, side, n) + k) == changed_ink(
            content,
            tokens,
            ops,
            side,
            covered(ops, side, n),
        ) + (if ops[n].tag == DiffTag::Equal {
            0
        } else {
            marked_count(
                content,
                tokens.subrange(
                    covered(ops, side, n),
                    covered(ops, side, n) + ops[n].count(side),
                ),
                k,
            )
        }),
    decreases k,
{
    let len = tokens.len() as int;
    let from = covered(ops, side, n);
    lemma_covered_monotone(ops, side, len, 0, n);
    lemma_covered_monotone(ops, side, len, n + 1, ops.len() as int);
    if k > 0 {
        lemma_changed_ink_counts(content, tokens, ops, side, n, k - 1);
        let t = from + k - 1;
        lemma_changed_is_outside(ops, side, len, t);
        lemma_count_is_ink(chars_in(content, tokens[t]));
        assert(ops[n].covers(side).start == from);
        if ops[n].tag == DiffTag::Equal {
            assert(in_equal_run(ops, side, t));
        } else {
            lemma_edit_is_no_equal_run(ops, side, len, n, t);
        }
    }
}

/// A token that an edit covers changes where the edit is no equal run.
proof fn lemma_edit_is_no_equal_run(ops: Seq<EditOp>, side: Side, len: int, n: int, t: int)
    requires
        tiles(ops, side, len),
        0 <= n < ops.len(),
        ops[n].tag != DiffTag::Equal,
        covered(ops, side, n) <= t < covered(ops, side, n) + ops[n].count(side),
    ensures
        !in_equal_run(ops, side, t),
{
    if in_equal_run(ops, side, t) {
        let i = choose|i: int|
            0 <= i < ops.len() && (#[trigger] ops[i]).tag == DiffTag::Equal && match side {
                Side::Old => ops[i].old.start <= t < ops[i].old.end,
                Side::New => ops[i].new.start <= t < ops[i].new.end,
            };
        assert(ops[i].count(side) > 0);
        assert(ops[i].covers(side).start == covered(ops, side, i));
        if i < n {
            lemma_covered_monotone(ops, side, len, i + 1, n);
        } else {
            lemma_covered_monotone(ops, side, len, n + 1, i);
        }
    }
}

/// The changed tokens of the first `n` edits hold the changed ink.
proof fn lemma_picked_ink(
    content: Seq<char>,
    tokens: Seq<Range<usize>>,
    ops: Seq<EditOp>,
    side: Side,
    n: int,
)
    requires
        tiles(ops, side, tokens.len() as int),
        0 <= n <= ops.len(),
    ensures
        ({
            let changed = picked(tokens, changed_tokens(ops, side, n));
            marked_count(content, changed, changed.len() as int) == changed_ink(
                content,
                tokens,
                ops,
                side,
                covered(ops, side, n),
            )
        }),
    decreases n,
{
    if n > 0 {
        lemma_picked_ink(content, tokens, ops, side, n - 1);
        let op = ops[n - 1];
        let from = covered(ops, side, n - 1);
        let count = op.count(side);
        assert(count >= 0);
        lemma_changed_ink_counts(content, tokens, ops, side, n - 1, count);
        let before = picked(tokens, changed_tokens(ops, side, n - 1));
        let changed = picked(tokens, changed_tokens(ops, side, n));
        if op.tag != DiffTag::Equal {
            let here = tokens.subrange(from, from + count);
            assert(changed =~= before + here);
            lemma_marked_concat(content, before, here, count);
        }
    }
}

/// Between lists whose tokens all take part in equal runs, the runs pair the
/// lists from front to back.
proof fn lemma_equal_runs_pair_all(
    ops: Seq<EditOp>,
    old: Seq<Seq<char>>,
    new: Seq<Seq<char>>,
    n: int,
)
    requires
        is_edit_script(ops, old, new),
        0 <= n <= ops.len(),
        forall|t: int| 0 <= t < old.len() ==> #[trigger] in_equal_run(ops, Side::Old, t),
        forall|t: int| 0 <= t < new.len() ==> #[trigger] in_equal_run(ops, Side::New, t),
    ensures
        0 <= covered(ops, Side::Old, n) <= old.len(),
        covered(ops, Side::Old, n) == covered(ops, Side::New, n),
        forall|t: int| 0 <= t < covered(ops, Side::Old, n) ==> #[trigger] old[t] == new[t],
    decreases n,
{
    lemma_covered_monotone(ops, Side::Old, old.len() as int, 0, n);
    lemma_covered_monotone(ops, Side::Old, old.len() as int, n, ops.len() as int);
    if n > 0 {
        lemma_equal_runs_pair_all(ops, old, new, n - 1);
        let op = ops[n - 1];
        let from = covered(ops, Side::Old, n - 1);
        assert(pairs_equal(op, old, new));
        assert(op.count(Side::Old) >= 0 && op.count(Side::New) >= 0);
        lemma_covered_monotone(ops, Side::New, new.len() as int, n, ops.len() as int);
        if op.tag != DiffTag::Equal {
            if op.count(Side::Old) > 0 {
                lemma_edit_is_no_equal_run(ops, Side::Old, old.len() as int, n - 1, from);
                assert(in_equal_run(ops, Side::Old, from));
            }
            if op.count(Side::New) > 0 {
                lemma_edit_is_no_equal_run(ops, Side::New, new.len() as int, n - 1, from);
                assert(in_equal_run(ops, Side::New, from));
            }
        } else {
            assert forall|t: int| 0 <= t < covered(ops, Side::Old, n) implies #[trigger] old[t]
                == new[t] by {
                if t >= from {
                    let k = t - from;
                    assert(op.old.start == from && op.new.start == from);
                    assert(old[op.old.start + k] == new[op.new.start + k]);
                }
            }
        }
    }
}

/// Word diff marks on both lines of a pair every compared token that lies
/// outside an equal run, and no other byte; where exactly one line is empty, or
/// more than three fifths of the ink has changed, it marks nothing. So of two
/// similar lines with different tokens at least one has a mark.
pub proof fn lemma_word_diff_marks_the_difference(
    deletion: Seq<char>,
    addition: Seq<char>,
    whitespace_mode: DiffWhitespaceMode,
)
    requires
        covers(deletion, token_ranges(grapheme_clusters(deletion))),
        covers(addition, token_ranges(grapheme_clusters(addition))),
        ({
            let ignore = whitespace_mode == DiffWhitespaceMode::IgnoreAll;
            let old = line_tokens(deletion, grapheme_clusters(deletion), ignore);
            let new = line_tokens(addition, grapheme_clusters(addition), ignore);
            let old_texts = range_texts(deletion, old);
            let new_texts = range_texts(addition, new);
            is_edit_script(myers_script(old_texts, new_texts), old_texts, new_texts)
        }),
    ensures
        marks_the_difference(
            deletion,
            addition,
            whitespace_mode,
            word_marks(deletion, addition, whitespace_mode).0,
            word_marks(deletion, addition, whitespace_mode).1,
        ),
{
    let ignore = whitespace_mode == DiffWhitespaceMode::IgnoreAll;
    let old_all = token_ranges(grapheme_clusters(deletion));
    let new_all = token_ranges(grapheme_clusters(addition));
    let old = line_tokens(deletion, grapheme_clusters(deletion), ignore);
    let new = line_tokens(addition, grapheme_clusters(addition), ignore);
    let old_texts = range_texts(deletion, old);
    let new_texts = range_texts(addition, new);
    let ops = myers_script(old_texts, new_texts);
    let n = ops.len() as int;
    lemma_covers_within(deletion, old_all);
    lemma_covers_within(addition, new_all);
    lemma_compared_within(deletion, old_all, ignore, old_all.len() as int);
    lemma_compared_within(addition, new_all, ignore, new_all.len() as int);
    lemma_picked_within(deletion, old, ops, Side::Old);
    lemma_picked_within(addition, new, ops, Side::New);
    lemma_merged(deletion, picked(old, changed_tokens(ops, Side::Old, n)));
    lemma_merged(addition, picked(new, changed_tokens(ops, Side::New, n)));
    lemma_picked_ink(deletion, old, ops, Side::Old, n);
    lemma_picked_ink(addition, new, ops, Side::New, n);
    lemma_count_is_ink(deletion);
    lemma_count_is_ink(addition);
    lemma_script_marks_changed(deletion, old, ops, Side::Old);
    lemma_script_marks_changed(addition, new, ops, Side::New);
    let left = script_marks(ops, Side::Old, old);
    let right = script_marks(ops, Side::New, new);
    if left.len() == 0 && right.len() == 0 {
        assert forall|t: int| 0 <= t < old_texts.len() implies #[trigger] in_equal_run(
            ops,
            Side::Old,
            t,
        ) by {
            if !in_equal_run(ops, Side::Old, t) {
                assert(old[t].start < old[t].end);
                assert(marks(left, old[t].start as int));
            }
        }
        assert forall|t: int| 0 <= t < new_texts.len() implies #[trigger] in_equal_run(
            ops,
            Side::New,
            t,
        ) by {
            if !in_equal_run(ops, Side::New, t) {
                assert(new[t].start < new[t].end);
                assert(marks(right, new[t].start as int));
            }
        }
        lemma_equal_runs_pair_all(ops, old_texts, new_texts, n);
        assert(old_texts =~= new_texts);
    }
}

/// Whether a cluster belongs to an identifier: its first character is a letter,
/// a digit or an underscore.
pub open spec fn names(cluster: Seq<char>) -> bool {
    cluster.len() > 0 && (char_is_alphanumeric(cluster[0]) || cluster[0] == '_')
}

/// Whether a cluster is whitespace: its first character is, and belongs to no
/// identifier.
pub open spec fn spaces(cluster: Seq<char>) -> bool {
    cluster.len() > 0 && !names(cluster) && char_is_whitespace(cluster[0])
}

/// A cluster is of the kind of its first character: identifiers come before
/// whitespace, and all else is punctuation.
pub proof fn lemma_first_character_decides(cluster: Seq<char>)
    ensures
        kind_of(cluster) == TokenKind::Identifier <==> names(cluster),
        kind_of(cluster) == TokenKind::Whitespace <==> spaces(cluster),
{
}

/// A token ends between two clusters unless both belong to identifiers or both
/// are whitespace: identifiers and whitespace stay whole, and every other
/// cluster is a token of its own.
pub proof fn lemma_tokens_end_where_kinds_change(clusters: Seq<Seq<char>>, i: int)
    requires
        forall|k: int| 0 <= k < clusters.len() ==> (#[trigger] clusters[k]).len() > 0,
        encode_utf8(joined(clusters, clusters.len() as int)).len() <= usize::MAX,
        0 < i < clusters.len(),
    ensures
        (exists|k: int|
            0 <= k < token_ranges(clusters).len() && (#[trigger] token_ranges(clusters)[k]).start
                == encode_utf8(joined(clusters, i)).len()) <==> !(names(clusters[i - 1])
            && names(clusters[i]) || spaces(clusters[i - 1]) && spaces(clusters[i])),
{
    let n = clusters.len() as int;
    let chars = joined(clusters, n);
    let starts = token_starts(clusters, n);
    let ranges = token_ranges(clusters);
    lemma_token_starts(clusters, n);
    lemma_starts_are_starts(clusters, n, i);
    lemma_cluster_offsets(clusters, chars, i, n);
    if starts_token(clusters, i) {
        let k = choose|k: int| 0 <= k < starts.len() && starts[k] == i;
        assert(ranges[k].start == encode_utf8(joined(clusters, i)).len());
    }
    if exists|k: int|
        0 <= k < ranges.len() && (#[trigger] ranges[k]).start == encode_utf8(
            joined(clusters, i),
        ).len() {
        let k = choose|k: int|
            0 <= k < ranges.len() && (#[trigger] ranges[k]).start == encode_utf8(
                joined(clusters, i),
            ).len();
        if starts[k] < i {
            lemma_cluster_offsets(clusters, chars, starts[k], i);
        } else if starts[k] > i {
            lemma_cluster_offsets(clusters, chars, i, starts[k]);
        }
        lemma_cluster_offsets(clusters, chars, starts[k], n);
        assert(starts.contains(i));
    }
}

/// The listed starts are the clusters that begin a token.
proof fn lemma_starts_are_starts(clusters: Seq<Seq<char>>, n: int, i: int)
    requires
        0 <= i < n,
    ensures
        token_starts(clusters, n).contains(i) <==> starts_token(clusters, i),
    decreases n,
{
    let before = token_starts(clusters, n - 1);
    let now = token_starts(clusters, n);
    lemma_starts_below(clusters, n - 1);
    if i < n - 1 {
        lemma_starts_are_starts(clusters, n - 1, i);
        if before.contains(i) {
            let k = choose|k: int| 0 <= k < before.len() && before[k] == i;
            assert(now[k] == i);
        }
        if now.contains(i) {
            let k = choose|k: int| 0 <= k < now.len() && now[k] == i;
            assert(before[k] == i);
        }
    } else {
        if starts_token(clusters, i) {
            assert(now[now.len() - 1] == i);
        }
    }
}

proof fn lemma_starts_below(clusters: Seq<Seq<char>>, n: int)
    ensures
        forall|k: int|
            0 <= k < token_starts(clusters, n).len() ==> #[trigger] token_starts(clusters, n)[k]
                < n,
    decreases n,
{
    if n > 0 {
        lemma_starts_below(clusters, n - 1);
        let before = token_starts(clusters, n - 1);
        let now = token_starts(clusters, n);
        assert forall|k: int| 0 <= k < now.len() implies #[trigger] now[k] < n by {
            if k < before.len() {
                assert(now[k] == before[k]);
            }
        }
    }
}

/// Every token of a line takes part in the comparison, in order, except that
/// tokens of plain whitespace are left out where whitespace is ignored.
pub proof fn lemma_compared_tokens_are_the_tokens(
    content: Seq<char>,
    tokens: Seq<Range<usize>>,
    ignore_whitespace: bool,
    t: int,
)
    requires
        within(content, tokens),
        0 <= t < tokens.len(),
    ensures
        compared_tokens(content, tokens, ignore_whitespace, tokens.len() as int).contains(
            tokens[t],
        ) <==> (ignore_whitespace ==> exists|i: int|
            0 <= i < chars_in(content, tokens[t]).len() && !char_is_whitespace(
                #[trigger] chars_in(content, tokens[t])[i],
            )),
        ascending(compared_tokens(content, tokens, ignore_whitespace, tokens.len() as int)),
        forall|k: int|
            0 <= k < compared_tokens(content, tokens, ignore_whitespace, tokens.len() as int).len()
                ==> tokens.contains(
                #[trigger] compared_tokens(
                    content,
                    tokens,
                    ignore_whitespace,
                    tokens.len() as int,
                )[k],
            ),
{
    let n = tokens.len() as int;
    let kept = compared_tokens(content, tokens, ignore_whitespace, n);
    lemma_compared_within(content, tokens, ignore_whitespace, n);
    if ignore_whitespace ==> exists|i: int|
        0 <= i < chars_in(content, tokens[t]).len() && !char_is_whitespace(
            #[trigger] chars_in(content, tokens[t])[i],
        ) {
        lemma_kept_token(content, tokens, ignore_whitespace, n, t);
    }
    assert forall|k: int| 0 <= k < kept.len() implies tokens.contains(#[trigger] kept[k]) by {
        let j = lemma_compared_is_token(content, tokens, ignore_whitespace, n, k);
        assert(tokens[j] == kept[k]);
    }
    if kept.contains(tokens[t]) {
        let k = choose|k: int| 0 <= k < kept.len() && kept[k] == tokens[t];
        let j = lemma_compared_is_token(content, tokens, ignore_whitespace, n, k);
    }
}

proof fn lemma_kept_token(
    content: Seq<char>,
    tokens: Seq<Range<usize>>,
    ignore_whitespace: bool,
    n: int,
    t: int,
)
    requires
        0 <= t < n <= tokens.len(),
        ignore_whitespace ==> exists|i: int|
            0 <= i < chars_in(content, tokens[t]).len() && !char_is_whitespace(
                #[trigger] chars_in(content, tokens[t])[i],
            ),
    ensures
        compared_tokens(content, tokens, ignore_whitespace, n).contains(tokens[t]),
    decreases n,
{
    let now = compared_tokens(content, tokens, ignore_whitespace, n);
    if t < n - 1 {
        lemma_kept_token(content, tokens, ignore_whitespace, n - 1, t);
        let before = compared_tokens(content, tokens, ignore_whitespace, n - 1);
        let k = choose|k: int| 0 <= k < before.len() && before[k] == tokens[t];
        assert(now[k] == tokens[t]);
    } else {
        assert(now[now.len() - 1] == tokens[t]);
    }
}

/// Joining ranges that touch marks the same bytes.
pub proof fn lemma_joining_marks_the_same(ranges: Seq<Range<usize>>, at: int)
    requires
        forall|k: int| 0 <= k < ranges.len() ==> (#[trigger] ranges[k]).start <= ranges[k].end,
    ensures
        marks(merged(ranges), at) <==> marks(ranges, at),
    decreases ranges.len(),
{
    if ranges.len() > 0 {
        let rest = ranges.drop_last();
        let before = merged(rest);
        let next = ranges.last();
        let all = merged(ranges);
        lemma_joining_marks_the_same(rest, at);
        lemma_joined_ranges_do_not_touch(rest);
        let joins = before.len() > 0 && before.last().end == next.start;
        if marks(all, at) {
            let k = choose|k: int|
                0 <= k < all.len() && (#[trigger] all[k]).start <= at < all[k].end;
            if k < before.len() && (k < before.len() - 1 || !joins || at < next.start) {
                assert(before[k].start <= at < before[k].end);
                assert(marks(rest, at));
                let i = choose|i: int|
                    0 <= i < rest.len() && (#[trigger] rest[i]).start <= at < rest[i].end;
                assert(ranges[i] == rest[i]);
            } else {
                assert(ranges[ranges.len() - 1].start <= at);
            }
        }
        if marks(ranges, at) {
            let i = choose|i: int|
                0 <= i < ranges.len() && (#[trigger] ranges[i]).start <= at < ranges[i].end;
            if i < rest.len() {
                assert(rest[i] == ranges[i]);
                assert(marks(before, at));
                let k = choose|k: int|
                    0 <= k < before.len() && (#[trigger] before[k]).start <= at < before[k].end;
                assert(all[k].start <= at < all[k].end);
            } else {
                assert(before.len() > 0 ==> before[before.len() - 1].start
                    <= before[before.len() - 1].end);
                assert(all[all.len() - 1].start <= at < all[all.len() - 1].end);
            }
        }
    }
}

/// After ranges that touch were joined, none ends where the next one starts.
pub proof fn lemma_joined_ranges_do_not_touch(ranges: Seq<Range<usize>>)
    requires
        forall|k: int| 0 <= k < ranges.len() ==> (#[trigger] ranges[k]).start <= ranges[k].end,
    ensures
        forall|k: int|
            0 <= k < merged(ranges).len() ==> (#[trigger] merged(ranges)[k]).start <= merged(
                ranges,
            )[k].end,
        forall|j: int, k: int|
            0 <= j < merged(ranges).len() && k == j + 1 && k < merged(ranges).len() ==> (
            #[trigger] merged(ranges)[j]).end != (#[trigger] merged(ranges)[k]).start,
    decreases ranges.len(),
{
    if ranges.len() > 0 {
        let rest = ranges.drop_last();
        let before = merged(rest);
        let all = merged(ranges);
        lemma_joined_ranges_do_not_touch(rest);
        assert forall|k: int| 0 <= k < all.len() implies (#[trigger] all[k]).start
            <= all[k].end by {
            if k < before.len() {
                assert(before[k].start <= before[k].end);
            }
        }
        assert forall|j: int, k: int|
            0 <= j < all.len() && k == j + 1 && k < all.len() implies (#[trigger] all[j]).end != (
        #[trigger] all[k]).start by {
            if k < before.len() {
                assert(before[j].end != before[k].start);
            }
        }
    }
}

} // verus!
