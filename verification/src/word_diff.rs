//! Word diff: the tokens that differ between the two lines of a line pair.
//! This module owns the token rule; the renderers do not.

use crate::edit_script::{
    capture_diff_slices, covered, is_edit_script, myers_script, pairs_equal, texts, tiles, DiffTag,
    EditOp, Side,
};
use crate::text::{
    byte_len, chars_in, lemma_at_least_one_byte, lemma_boundary_is_offset, lemma_chars_in_all,
    lemma_chars_in_split, lemma_offsets, slice, slices,
};
use crate::unicode::{
    char_is_alphanumeric, char_is_whitespace, grapheme_clusters, grapheme_indices, joined,
    part_texts, splits,
};
use crate::word_laws::{lemma_word_diff_marks_the_difference, marks_the_difference};
use std::ops::Range;
use vstd::prelude::*;
use vstd::utf8::encode_utf8;

verus! {

/// What a grapheme cluster counts as when a line is split into tokens.
#[derive(Clone, Copy, Debug, PartialEq, Eq, Structural)]
pub enum TokenKind {
    Identifier,
    Whitespace,
    Punctuation,
}

/// The kind of a grapheme cluster: its first character decides.
pub open spec fn kind_of(cluster: Seq<char>) -> TokenKind {
    if cluster.len() > 0 && (char_is_alphanumeric(cluster[0]) || cluster[0] == '_') {
        TokenKind::Identifier
    } else if cluster.len() > 0 && char_is_whitespace(cluster[0]) {
        TokenKind::Whitespace
    } else {
        TokenKind::Punctuation
    }
}

impl TokenKind {
    /// The kind of a grapheme cluster, decided by its first character; the
    /// marks that follow do not change it.
    pub fn of(grapheme: &str) -> (kind: Self)
        ensures
            kind == kind_of(grapheme@),
    {
        let mut chars = grapheme.chars();
        match chars.next() {
            Some(ch) => {
                if ch.is_alphanumeric() || ch == '_' {
                    TokenKind::Identifier
                } else if ch.is_whitespace() {
                    TokenKind::Whitespace
                } else {
                    TokenKind::Punctuation
                }
            },
            None => TokenKind::Punctuation,
        }
    }

    /// Whether adjacent clusters of this kind belong to one token.
    pub fn forms_runs(self) -> (yes: bool)
        ensures
            yes == (self != TokenKind::Punctuation),
    {
        self != TokenKind::Punctuation
    }
}

/// Whether the cluster with index `i` begins a token: the first one does, and
/// every other one unless it continues a run of its own kind.
pub open spec fn starts_token(clusters: Seq<Seq<char>>, i: int) -> bool {
    i == 0 || !(kind_of(clusters[i - 1]) == kind_of(clusters[i]) && kind_of(clusters[i])
        != TokenKind::Punctuation)
}

/// The clusters among the first `n` that begin a token, by index.
pub open spec fn token_starts(clusters: Seq<Seq<char>>, n: int) -> Seq<int>
    decreases n,
{
    if n <= 0 {
        Seq::empty()
    } else if starts_token(clusters, n - 1) {
        token_starts(clusters, n - 1).push(n - 1)
    } else {
        token_starts(clusters, n - 1)
    }
}

/// The byte offset at which the cluster with index `i` starts.
pub open spec fn cluster_offset(clusters: Seq<Seq<char>>, i: int) -> int {
    encode_utf8(joined(clusters, i)).len() as int
}

/// The token byte ranges of a line with the given grapheme clusters: a token
/// runs from a cluster that begins one to the next such cluster, or to the
/// end of the line.
pub open spec fn token_ranges(clusters: Seq<Seq<char>>) -> Seq<Range<usize>> {
    let starts = token_starts(clusters, clusters.len() as int);
    Seq::new(
        starts.len(),
        |k: int|
            Range {
                start: cluster_offset(clusters, starts[k]) as usize,
                end: cluster_offset(
                    clusters,
                    if k + 1 < starts.len() {
                        starts[k + 1]
                    } else {
                        clusters.len() as int
                    },
                ) as usize,
            },
    )
}

/// Whether `ranges` cover `chars` in order, without gaps, overlaps or empty
/// ranges, every boundary on a character boundary.
pub open spec fn covers(chars: Seq<char>, ranges: Seq<Range<usize>>) -> bool {
    &&& forall|k: int|
        0 <= k < ranges.len() ==> slices(chars, #[trigger] ranges[k]) && ranges[k].start
            < ranges[k].end
    &&& forall|k: int|
        #![trigger ranges[k]]
        0 <= k < ranges.len() - 1 ==> ranges[k].end == ranges[k + 1].start
    &&& chars.len() == 0 <==> ranges.len() == 0
    &&& ranges.len() > 0 ==> ranges[0].start == 0
    &&& ranges.len() > 0 ==> ranges.last().end == encode_utf8(chars).len()
}

/// Whether `at` is where a cluster starts, or the end of the line.
pub open spec fn is_cluster_boundary(clusters: Seq<Seq<char>>, at: int) -> bool {
    exists|i: int| 0 <= i <= clusters.len() && at == #[trigger] cluster_offset(clusters, i)
}

/// Token starts are cluster indices in ascending order, the first of them 0.
pub proof fn lemma_token_starts(clusters: Seq<Seq<char>>, n: int)
    requires
        0 <= n <= clusters.len(),
    ensures
        forall|k: int|
            0 <= k < token_starts(clusters, n).len() ==> 0 <= #[trigger] token_starts(
                clusters,
                n,
            )[k] < n,
        forall|j: int, k: int|
            0 <= j < k < token_starts(clusters, n).len() ==> #[trigger] token_starts(clusters, n)[j]
                < #[trigger] token_starts(clusters, n)[k],
        n > 0 ==> token_starts(clusters, n).len() > 0 && token_starts(clusters, n)[0] == 0,
        n == 0 ==> token_starts(clusters, n).len() == 0,
    decreases n,
{
    if n > 0 {
        lemma_token_starts(clusters, n - 1);
    }
}

/// The first `i` parts make a prefix of all of them, no shorter than `i` when
/// no part is empty.
proof fn lemma_joined_prefix(parts: Seq<Seq<char>>, i: int, n: int)
    requires
        0 <= i <= n <= parts.len(),
        forall|k: int| 0 <= k < parts.len() ==> (#[trigger] parts[k]).len() > 0,
    ensures
        joined(parts, i).len() + (n - i) <= joined(parts, n).len(),
        joined(parts, n).take(joined(parts, i).len() as int) == joined(parts, i),
    decreases n,
{
    if i < n {
        lemma_joined_prefix(parts, i, n - 1);
        assert(joined(parts, n).take(joined(parts, i).len() as int) =~= joined(parts, n - 1).take(
            joined(parts, i).len() as int,
        ));
    } else {
        assert(joined(parts, n).take(joined(parts, i).len() as int) =~= joined(parts, i));
    }
}

/// Where clusters start, as byte offsets of the line: on character
/// boundaries, inside the line, each after the one before.
pub proof fn lemma_cluster_offsets(clusters: Seq<Seq<char>>, chars: Seq<char>, i: int, j: int)
    requires
        0 <= i <= j <= clusters.len(),
        forall|k: int| 0 <= k < clusters.len() ==> (#[trigger] clusters[k]).len() > 0,
        joined(clusters, clusters.len() as int) == chars,
    ensures
        0 <= cluster_offset(clusters, i) <= cluster_offset(clusters, j) <= encode_utf8(chars).len(),
        i < j ==> cluster_offset(clusters, i) < cluster_offset(clusters, j),
        vstd::utf8::is_char_boundary(encode_utf8(chars), cluster_offset(clusters, i)),
        vstd::utf8::is_char_boundary(encode_utf8(chars), cluster_offset(clusters, j)),
        cluster_offset(clusters, 0) == 0,
        cluster_offset(clusters, clusters.len() as int) == encode_utf8(chars).len(),
{
    let n = clusters.len() as int;
    lemma_joined_prefix(clusters, i, j);
    lemma_joined_prefix(clusters, i, n);
    lemma_joined_prefix(clusters, j, n);
    let a = joined(clusters, i).len() as int;
    let b = joined(clusters, j).len() as int;
    lemma_offsets(chars, a, b);
}

/// The token ranges cover the line, and every one of their boundaries is a
/// cluster boundary.
pub proof fn lemma_tokens_cover(clusters: Seq<Seq<char>>, chars: Seq<char>)
    requires
        forall|k: int| 0 <= k < clusters.len() ==> (#[trigger] clusters[k]).len() > 0,
        joined(clusters, clusters.len() as int) == chars,
        encode_utf8(chars).len() <= usize::MAX,
    ensures
        covers(chars, token_ranges(clusters)),
        forall|k: int|
            0 <= k < token_ranges(clusters).len() ==> is_cluster_boundary(
                clusters,
                (#[trigger] token_ranges(clusters)[k]).start as int,
            ) && is_cluster_boundary(clusters, token_ranges(clusters)[k].end as int),
{
    let n = clusters.len() as int;
    let starts = token_starts(clusters, n);
    let ranges = token_ranges(clusters);
    lemma_token_starts(clusters, n);
    lemma_joined_prefix(clusters, 0, n);
    lemma_cluster_offsets(clusters, chars, 0, n);
    assert forall|k: int| 0 <= k < ranges.len() implies {
        &&& slices(chars, #[trigger] ranges[k])
        &&& ranges[k].start < ranges[k].end
        &&& is_cluster_boundary(clusters, ranges[k].start as int)
        &&& is_cluster_boundary(clusters, ranges[k].end as int)
        &&& k + 1 < ranges.len() ==> ranges[k].end == ranges[k + 1].start
    } by {
        let next = if k + 1 < starts.len() {
            starts[k + 1]
        } else {
            n
        };
        assert(starts[k] < next);
        lemma_cluster_offsets(clusters, chars, starts[k], next);
    }
    if n > 0 {
        assert(ranges[0].start == 0);
        assert(ranges.last().end == encode_utf8(chars).len());
    }
}

/// The token ranges of `content`, whose grapheme clusters are given with
/// their byte offsets.
pub fn tokenize_clusters(content: &str, clusters: &Vec<(usize, &str)>) -> (tokens: Vec<
    Range<usize>,
>)
    requires
        splits(clusters@, content@),
    ensures
        tokens@ == token_ranges(part_texts(clusters@)),
{
    let ghost texts = part_texts(clusters@);
    let mut tokens: Vec<Range<usize>> = Vec::new();
    let mut start: usize = 0;
    let mut previous: Option<TokenKind> = None;
    let mut i: usize = 0;
    while i < clusters.len()
        invariant
            i <= clusters.len(),
            texts == part_texts(clusters@),
            splits(clusters@, content@),
            i == 0 ==> previous is None && tokens@.len() == 0 && start == 0,
            i > 0 ==> previous == Some(kind_of(texts[i - 1])),
            i > 0 ==> tokens@.len() == token_starts(texts, i as int).len() - 1,
            i > 0 ==> start == cluster_offset(texts, token_starts(texts, i as int).last()),
            forall|k: int|
                0 <= k < tokens@.len() ==> #[trigger] tokens@[k] == (Range {
                    start: cluster_offset(texts, token_starts(texts, i as int)[k]) as usize,
                    end: cluster_offset(texts, token_starts(texts, i as int)[k + 1]) as usize,
                }),
        decreases clusters.len() - i,
    {
        let index = clusters[i].0;
        let kind = TokenKind::of(clusters[i].1);
        assert(texts[i as int] == clusters@[i as int].1@);
        assert(index == cluster_offset(texts, i as int));
        proof {
            lemma_token_starts(texts, i as int);
        }
        let extends_run = match previous {
            Some(before) => before == kind && kind.forms_runs(),
            None => false,
        };
        if previous.is_some() && !extends_run {
            tokens.push(Range { start, end: index });
            start = index;
        }
        previous = Some(kind);
        i = i + 1;
    }
    let len = byte_len(content);
    if len > 0 {
        tokens.push(Range { start, end: len });
    }
    proof {
        lemma_token_starts(texts, texts.len() as int);
        lemma_joined_prefix(texts, 0, texts.len() as int);
        lemma_at_least_one_byte(content@);
        assert(tokens@ =~= token_ranges(texts));
    }
    tokens
}

/// Split a line's content into token byte ranges.
///
/// The unit is the grapheme cluster, classified by its first character: a run
/// of identifier clusters (alphanumeric or underscore, Unicode-aware) is one
/// token, every other non-whitespace cluster is its own token, and a run of
/// whitespace is one token. So a combining mark stays with the letter before
/// it, a flag, a skin-toned emoji, or a joiner sequence is one token, and a
/// token never ends inside a cluster. The ranges cover the whole input in
/// order with no gaps or overlaps, and every boundary falls on a character
/// boundary.
///
/// Content reaches the renderers tab-expanded and newline-free, so the ranges
/// index the displayed text.
pub fn tokenize(content: &str) -> (tokens: Vec<Range<usize>>)
    ensures
        tokens@ == token_ranges(grapheme_clusters(content@)),
        covers(content@, tokens@),
        forall|k: int|
            0 <= k < tokens@.len() ==> is_cluster_boundary(
                grapheme_clusters(content@),
                (#[trigger] tokens@[k]).start as int,
            ) && is_cluster_boundary(grapheme_clusters(content@), tokens@[k].end as int),
{
    let clusters = grapheme_indices(content);
    let tokens = tokenize_clusters(content, &clusters);
    let _len = byte_len(content);
    proof {
        let texts = part_texts(clusters@);
        assert forall|k: int| 0 <= k < texts.len() implies (#[trigger] texts[k]).len() > 0 by {
            assert(clusters@[k].1@.len() > 0);
        }
        lemma_tokens_cover(texts, content@);
    }
    tokens
}

/// The non-whitespace characters of `chars`, counted.
pub open spec fn non_whitespace_count(chars: Seq<char>) -> nat
    decreases chars.len(),
{
    if chars.len() == 0 {
        0
    } else {
        non_whitespace_count(chars.drop_last()) + if char_is_whitespace(chars.last()) {
            0nat
        } else {
            1nat
        }
    }
}

/// Whether every character of `chars` is whitespace.
pub open spec fn all_whitespace(chars: Seq<char>) -> bool {
    forall|i: int| 0 <= i < chars.len() ==> char_is_whitespace(#[trigger] chars[i])
}

/// Whether `text` is a run of plain whitespace. A whitespace token that
/// carries a combining mark is not, so it stays in the comparison and a
/// change inside it is still marked.
pub fn is_whitespace_token(text: &str) -> (yes: bool)
    ensures
        yes == all_whitespace(text@),
{
    for ch in chars: text.chars()
        invariant
            chars.seq() == text@,
            forall|i: int| 0 <= i < chars.index() ==> char_is_whitespace(#[trigger] text@[i]),
    {
        if !ch.is_whitespace() {
            assert(ch == text@[chars.index()]);
            return false;
        }
    }
    true
}

/// The non-whitespace characters of `text`, counted.
pub fn non_whitespace_len(text: &str) -> (len: usize)
    ensures
        len == non_whitespace_count(text@),
{
    let _bytes = byte_len(text);
    proof {
        lemma_at_least_one_byte(text@);
    }
    let mut len: usize = 0;
    for ch in chars: text.chars()
        invariant
            chars.seq() == text@,
            text@.len() <= usize::MAX,
            len == non_whitespace_count(text@.take(chars.index())),
            len <= chars.index(),
    {
        assert(text@.take(chars.index() + 1).drop_last() =~= text@.take(chars.index()));
        assert(text@.take(chars.index() + 1).last() == ch);
        if !ch.is_whitespace() {
            len = len + 1;
        }
    }
    assert(text@.take(text@.len() as int) =~= text@);
    len
}

/// The non-whitespace characters in the first `n` of `ranges`, counted.
pub open spec fn marked_count(content: Seq<char>, ranges: Seq<Range<usize>>, n: int) -> nat
    decreases n,
{
    if n <= 0 {
        0
    } else {
        marked_count(content, ranges, n - 1) + non_whitespace_count(
            chars_in(content, ranges[n - 1]),
        )
    }
}

/// Non-whitespace characters of `content` inside `ranges`.
pub fn marked_len(content: &str, ranges: &Vec<Range<usize>>) -> (len: usize)
    requires
        forall|k: int| 0 <= k < ranges@.len() ==> slices(content@, #[trigger] ranges@[k]),
        marked_count(content@, ranges@, ranges@.len() as int) <= usize::MAX,
    ensures
        len == marked_count(content@, ranges@, ranges@.len() as int),
{
    let mut len: usize = 0;
    let mut k: usize = 0;
    while k < ranges.len()
        invariant
            k <= ranges.len(),
            forall|k: int| 0 <= k < ranges@.len() ==> slices(content@, #[trigger] ranges@[k]),
            marked_count(content@, ranges@, ranges@.len() as int) <= usize::MAX,
            len == marked_count(content@, ranges@, k as int),
        decreases ranges.len() - k,
    {
        proof {
            lemma_marked_monotone(content@, ranges@, k + 1, ranges@.len() as int);
        }
        len = len + non_whitespace_len(slice(content, &ranges[k]));
        k = k + 1;
    }
    len
}

/// More ranges hold no fewer characters.
proof fn lemma_marked_monotone(content: Seq<char>, ranges: Seq<Range<usize>>, i: int, j: int)
    requires
        0 <= i <= j,
    ensures
        marked_count(content, ranges, i) <= marked_count(content, ranges, j),
    decreases j,
{
    if i < j {
        lemma_marked_monotone(content, ranges, i, j - 1);
    }
}

/// Whether `ranges` come in ascending order and none is empty or overlaps
/// another.
pub open spec fn ascending(ranges: Seq<Range<usize>>) -> bool {
    &&& forall|k: int| 0 <= k < ranges.len() ==> (#[trigger] ranges[k]).start < ranges[k].end
    &&& forall|j: int, k: int|
        0 <= j < k < ranges.len() ==> (#[trigger] ranges[j]).end <= (#[trigger] ranges[k]).start
}

/// Whether, besides, no two of `ranges` touch.
pub open spec fn separated(ranges: Seq<Range<usize>>) -> bool {
    &&& ascending(ranges)
    &&& forall|j: int, k: int|
        0 <= j < k < ranges.len() ==> (#[trigger] ranges[j]).end < (#[trigger] ranges[k]).start
}

/// `ranges` with each range that starts where the one before ends joined to
/// it.
pub open spec fn merged(ranges: Seq<Range<usize>>) -> Seq<Range<usize>>
    decreases ranges.len(),
{
    if ranges.len() == 0 {
        Seq::empty()
    } else {
        let before = merged(ranges.drop_last());
        let next = ranges.last();
        if before.len() > 0 && before.last().end == next.start {
            before.drop_last().push(Range { start: before.last().start, end: next.end })
        } else {
            before.push(next)
        }
    }
}

/// Whether a byte lies in one of `ranges`.
pub open spec fn marks(ranges: Seq<Range<usize>>, at: int) -> bool {
    exists|k: int| 0 <= k < ranges.len() && (#[trigger] ranges[k]).start <= at < ranges[k].end
}

/// Join the ranges that touch.
pub fn merge_touching_ranges(ranges: Vec<Range<usize>>) -> (joined: Vec<Range<usize>>)
    ensures
        joined@ == merged(ranges@),
{
    let mut joined: Vec<Range<usize>> = Vec::new();
    let mut k: usize = 0;
    while k < ranges.len()
        invariant
            k <= ranges.len(),
            joined@ == merged(ranges@.take(k as int)),
        decreases ranges.len() - k,
    {
        assert(ranges@.take(k + 1).drop_last() =~= ranges@.take(k as int));
        let next = Range { start: ranges[k].start, end: ranges[k].end };
        let touches = joined.len() > 0 && joined[joined.len() - 1].end == next.start;
        if touches {
            let ghost before = joined@;
            let last = joined.len() - 1;
            let start = joined[last].start;
            joined.pop();
            joined.push(Range { start, end: next.end });
            assert(joined@ =~= before.drop_last().push(Range { start, end: next.end }));
        } else {
            joined.push(next);
        }
        k = k + 1;
    }
    assert(ranges@.take(ranges@.len() as int) =~= ranges@);
    joined
}

/// Joining touching ranges of an ascending list leaves them separated, marks
/// the same bytes, and marks as many characters.
pub proof fn lemma_merged(content: Seq<char>, ranges: Seq<Range<usize>>)
    requires
        ascending(ranges),
        forall|k: int| 0 <= k < ranges.len() ==> slices(content, #[trigger] ranges[k]),
    ensures
        separated(merged(ranges)),
        forall|k: int|
            0 <= k < merged(ranges).len() ==> slices(content, #[trigger] merged(ranges)[k]),
        forall|at: int| marks(merged(ranges), at) <==> marks(ranges, at),
        marked_count(content, merged(ranges), merged(ranges).len() as int) == marked_count(
            content,
            ranges,
            ranges.len() as int,
        ),
        merged(ranges).len() <= ranges.len(),
        ranges.len() > 0 ==> merged(ranges).len() > 0 && merged(ranges).last().end
            == ranges.last().end,
    decreases ranges.len(),
{
    if ranges.len() > 0 {
        let rest = ranges.drop_last();
        let before = merged(rest);
        let next = ranges.last();
        let all = merged(ranges);
        lemma_merged(content, rest);
        lemma_marked_same(content, rest, ranges, rest.len() as int);
        assert(rest.len() > 0 ==> rest.last() == ranges[ranges.len() - 2]);
        if before.len() > 0 && before.last().end == next.start {
            let last = before.last();
            lemma_chars_in_split(content, last.start, last.end, next.end);
            lemma_count_concat(chars_in(content, last), chars_in(content, next));
            lemma_marked_same(content, before, all, before.len() - 1);
            assert(all.last() == (Range { start: last.start, end: next.end }));
            assert forall|at: int| marks(all, at) <==> marks(ranges, at) by {
                if marks(all, at) {
                    let k = choose|k: int|
                        0 <= k < all.len() && (#[trigger] all[k]).start <= at < all[k].end;
                    if k < all.len() - 1 {
                        assert(before[k].start <= at < before[k].end);
                        assert(marks(rest, at));
                    } else if at < last.end {
                        assert(before[k].start <= at < before[k].end);
                        assert(marks(rest, at));
                    } else {
                        assert(ranges[ranges.len() - 1].start <= at);
                    }
                    if marks(rest, at) {
                        let i = choose|i: int|
                            0 <= i < rest.len() && (#[trigger] rest[i]).start <= at < rest[i].end;
                        assert(ranges[i] == rest[i]);
                    }
                }
                if marks(ranges, at) {
                    let i = choose|i: int|
                        0 <= i < ranges.len() && (#[trigger] ranges[i]).start <= at < ranges[i].end;
                    if i < rest.len() {
                        assert(rest[i] == ranges[i]);
                        assert(marks(rest, at));
                        assert(marks(before, at));
                        let k = choose|k: int|
                            0 <= k < before.len() && (#[trigger] before[k]).start <= at
                                < before[k].end;
                        assert(all[k].start <= at < all[k].end);
                    } else {
                        assert(all[all.len() - 1].start <= at < all[all.len() - 1].end);
                    }
                }
            }
        } else {
            lemma_marked_same(content, before, all, before.len() as int);
            assert forall|at: int| marks(all, at) <==> marks(ranges, at) by {
                if marks(all, at) {
                    let k = choose|k: int|
                        0 <= k < all.len() && (#[trigger] all[k]).start <= at < all[k].end;
                    if k < before.len() {
                        assert(before[k] == all[k]);
                        assert(marks(rest, at));
                        let i = choose|i: int|
                            0 <= i < rest.len() && (#[trigger] rest[i]).start <= at < rest[i].end;
                        assert(ranges[i] == rest[i]);
                    } else {
                        assert(ranges[ranges.len() - 1].start <= at);
                    }
                }
                if marks(ranges, at) {
                    let i = choose|i: int|
                        0 <= i < ranges.len() && (#[trigger] ranges[i]).start <= at < ranges[i].end;
                    if i < rest.len() {
                        assert(rest[i] == ranges[i]);
                        assert(marks(rest, at));
                        assert(marks(before, at));
                        let k = choose|k: int|
                            0 <= k < before.len() && (#[trigger] before[k]).start <= at
                                < before[k].end;
                        assert(all[k] == before[k]);
                    } else {
                        assert(all[all.len() - 1] == next);
                    }
                }
            }
        }
    }
}

/// The count depends on the first `n` ranges alone.
proof fn lemma_marked_same(
    content: Seq<char>,
    a: Seq<Range<usize>>,
    b: Seq<Range<usize>>,
    n: int,
)
    requires
        n <= a.len(),
        n <= b.len(),
        forall|k: int| 0 <= k < n ==> #[trigger] a[k] == b[k],
    ensures
        marked_count(content, a, n) == marked_count(content, b, n),
    decreases n,
{
    if n > 0 {
        lemma_marked_same(content, a, b, n - 1);
    }
}

/// Two texts in a row hold the characters of both.
proof fn lemma_count_concat(a: Seq<char>, b: Seq<char>)
    ensures
        non_whitespace_count(a + b) == non_whitespace_count(a) + non_whitespace_count(b),
    decreases b.len(),
{
    if b.len() == 0 {
        assert(a + b =~= a);
    } else {
        lemma_count_concat(a, b.drop_last());
        assert((a + b).drop_last() =~= a + b.drop_last());
    }
}

/// Whether whitespace takes part in the comparison of lines.
#[derive(Clone, Copy, Debug, PartialEq, Eq, Structural)]
pub enum DiffWhitespaceMode {
    Normal,
    IgnoreAll,
}

impl DiffWhitespaceMode {
    /// Whether whitespace is left out of the comparison.
    pub fn ignores_all(self) -> (yes: bool)
        ensures
            yes == (self == DiffWhitespaceMode::IgnoreAll),
    {
        self == DiffWhitespaceMode::IgnoreAll
    }
}

/// One side's tokens as parallel slices: the text of each token, which the
/// diff compares, and its byte range, which the result reports.
#[derive(Debug)]
pub struct Tokens<'a> {
    pub texts: Vec<&'a str>,
    pub ranges: Vec<Range<usize>>,
}

/// Whether a token takes part in the comparison.
pub open spec fn compared(
    content: Seq<char>,
    range: Range<usize>,
    ignore_whitespace: bool,
) -> bool {
    !(ignore_whitespace && all_whitespace(chars_in(content, range)))
}

/// The tokens among the first `n` that take part in the comparison.
pub open spec fn compared_tokens(
    content: Seq<char>,
    ranges: Seq<Range<usize>>,
    ignore_whitespace: bool,
    n: int,
) -> Seq<Range<usize>>
    decreases n,
{
    if n <= 0 {
        Seq::empty()
    } else {
        let before = compared_tokens(content, ranges, ignore_whitespace, n - 1);
        if compared(content, ranges[n - 1], ignore_whitespace) {
            before.push(ranges[n - 1])
        } else {
            before
        }
    }
}

/// What the tokens of a line are when its grapheme clusters are given.
pub open spec fn line_tokens(
    content: Seq<char>,
    clusters: Seq<Seq<char>>,
    ignore_whitespace: bool,
) -> Seq<Range<usize>> {
    let ranges = token_ranges(clusters);
    compared_tokens(content, ranges, ignore_whitespace, ranges.len() as int)
}

/// The texts that byte ranges of a line hold.
pub open spec fn range_texts(content: Seq<char>, ranges: Seq<Range<usize>>) -> Seq<Seq<char>> {
    Seq::new(ranges.len(), |k: int| chars_in(content, ranges[k]))
}

/// Whether `ranges` are ascending ranges of a line.
pub open spec fn within(content: Seq<char>, ranges: Seq<Range<usize>>) -> bool {
    &&& ascending(ranges)
    &&& forall|k: int| 0 <= k < ranges.len() ==> slices(content, #[trigger] ranges[k])
}

impl<'a> Tokens<'a> {
    /// Whether the tokens are ascending ranges of `content` with the text of
    /// each.
    pub open spec fn wf(self, content: Seq<char>) -> bool {
        &&& within(content, self.ranges@)
        &&& texts(self.texts@) == range_texts(content, self.ranges@)
    }

    /// The tokens of `content` among `ranges`, without the plain whitespace
    /// ones if whitespace is ignored.
    pub fn of_ranges(
        content: &'a str,
        ranges: Vec<Range<usize>>,
        ignore_whitespace: bool,
    ) -> (tokens: Self)
        requires
            within(content@, ranges@),
        ensures
            tokens.ranges@ == compared_tokens(
                content@,
                ranges@,
                ignore_whitespace,
                ranges@.len() as int,
            ),
            tokens.wf(content@),
    {
        let mut kept_texts: Vec<&'a str> = Vec::new();
        let mut kept: Vec<Range<usize>> = Vec::new();
        let mut k: usize = 0;
        while k < ranges.len()
            invariant
                k <= ranges.len(),
                within(content@, ranges@),
                kept@ == compared_tokens(content@, ranges@, ignore_whitespace, k as int),
                texts(kept_texts@) == range_texts(content@, kept@),
            decreases ranges.len() - k,
        {
            let text = slice(content, &ranges[k]);
            if !(ignore_whitespace && is_whitespace_token(text)) {
                let ghost before = texts(kept_texts@);
                kept_texts.push(text);
                kept.push(Range { start: ranges[k].start, end: ranges[k].end });
                assert(texts(kept_texts@) =~= before.push(text@));
                assert(range_texts(content@, kept@) =~= before.push(text@));
            }
            k = k + 1;
        }
        proof {
            lemma_compared_within(content@, ranges@, ignore_whitespace, ranges@.len() as int);
        }
        Tokens { texts: kept_texts, ranges: kept }
    }

    /// The tokens of `content`, without the plain whitespace ones if
    /// whitespace is ignored.
    pub fn of(content: &'a str, ignore_whitespace: bool) -> (tokens: Self)
        ensures
            tokens.ranges@ == line_tokens(
                content@,
                grapheme_clusters(content@),
                ignore_whitespace,
            ),
            tokens.wf(content@),
            covers(content@, token_ranges(grapheme_clusters(content@))),
    {
        let ranges = tokenize(content);
        proof {
            lemma_covers_within(content@, ranges@);
        }
        Self::of_ranges(content, ranges, ignore_whitespace)
    }
}

/// Ranges that cover a line are ascending ranges of it.
pub proof fn lemma_covers_within(content: Seq<char>, ranges: Seq<Range<usize>>)
    requires
        covers(content, ranges),
    ensures
        within(content, ranges),
{
    assert forall|j: int, k: int| 0 <= j < k < ranges.len() implies (#[trigger] ranges[j]).end <= (
    #[trigger] ranges[k]).start by {
        lemma_covers_order(content, ranges, j, k);
    }
}

proof fn lemma_covers_order(content: Seq<char>, ranges: Seq<Range<usize>>, j: int, k: int)
    requires
        covers(content, ranges),
        0 <= j < k < ranges.len(),
    ensures
        ranges[j].end <= ranges[k].start,
    decreases k - j,
{
    assert(ranges[k - 1].end == ranges[k].start);
    if j < k - 1 {
        lemma_covers_order(content, ranges, j, k - 1);
    }
}

/// Leaving tokens out keeps the rest in order, and each of them is one of the
/// tokens that take part.
pub proof fn lemma_compared_within(
    content: Seq<char>,
    ranges: Seq<Range<usize>>,
    ignore_whitespace: bool,
    n: int,
)
    requires
        within(content, ranges),
        0 <= n <= ranges.len(),
    ensures
        within(content, compared_tokens(content, ranges, ignore_whitespace, n)),
        n > 0 ==> forall|k: int|
            0 <= k < compared_tokens(content, ranges, ignore_whitespace, n).len() ==> (
            #[trigger] compared_tokens(content, ranges, ignore_whitespace, n)[k]).end <= ranges[n
                - 1].end,
        forall|k: int|
            0 <= k < compared_tokens(content, ranges, ignore_whitespace, n).len() ==> compared(
                content,
                #[trigger] compared_tokens(content, ranges, ignore_whitespace, n)[k],
                ignore_whitespace,
            ),
    decreases n,
{
    if n > 0 {
        lemma_compared_within(content, ranges, ignore_whitespace, n - 1);
        if n > 1 {
            assert(ranges[n - 2].end <= ranges[n - 1].start);
        }
    }
}

/// The word ranges of one line pair. Each side's ranges index that side's
/// content, in ascending order, and never overlap. A dissimilar pair has
/// none, like an identical one.
#[derive(Debug)]
pub struct WordRanges {
    pub deletion: Vec<Range<usize>>,
    pub addition: Vec<Range<usize>>,
}

impl Default for WordRanges {
    fn default() -> (ranges: Self)
        ensures
            ranges.deletion@ == Seq::<Range<usize>>::empty(),
            ranges.addition@ == Seq::<Range<usize>>::empty(),
    {
        WordRanges { deletion: Vec::new(), addition: Vec::new() }
    }
}

/// The largest share of a line pair's non-whitespace characters that word
/// diff will mark, as `MAX_CHANGED_PARTS` parts of `ALL_PARTS`. Above it the
/// pair is dissimilar and left plain, so a rewritten line is not painted
/// nearly end to end.
///
/// Pairs below three fifths are mostly one edit inside a kept line, such as a
/// rename to a longer name or an added argument, and above it unrelated lines
/// become common.
pub const MAX_CHANGED_PARTS: u128 = 3;

/// The parts that make up all of a line pair; see [`MAX_CHANGED_PARTS`].
pub const ALL_PARTS: u128 = 5;

/// Whether `changed` characters exceed the largest share of `total`.
pub open spec fn exceeds_share(changed: nat, total: nat) -> bool {
    changed * ALL_PARTS > total * MAX_CHANGED_PARTS
}

/// The tokens of one side, by index, that the first `n` edits change.
pub open spec fn changed_tokens(ops: Seq<EditOp>, side: Side, n: int) -> Seq<int>
    decreases n,
{
    if n <= 0 {
        Seq::empty()
    } else if ops[n - 1].tag == DiffTag::Equal {
        changed_tokens(ops, side, n - 1)
    } else {
        let range = ops[n - 1].covers(side);
        changed_tokens(ops, side, n - 1) + Seq::new(
            (range.end - range.start) as nat,
            |k: int| range.start + k,
        )
    }
}

/// The ranges with the given indices.
pub open spec fn picked(ranges: Seq<Range<usize>>, indices: Seq<int>) -> Seq<Range<usize>> {
    Seq::new(indices.len(), |k: int| ranges[indices[k]])
}

/// The ranges that an edit script marks on one side: its changed tokens,
/// those that touch joined.
pub open spec fn script_marks(
    ops: Seq<EditOp>,
    side: Side,
    ranges: Seq<Range<usize>>,
) -> Seq<Range<usize>> {
    merged(picked(ranges, changed_tokens(ops, side, ops.len() as int)))
}

/// The non-whitespace characters that an edit script marks on both sides.
pub open spec fn script_changed(
    deletion: Seq<char>,
    addition: Seq<char>,
    old: Seq<Range<usize>>,
    new: Seq<Range<usize>>,
    ops: Seq<EditOp>,
) -> nat {
    let left = script_marks(ops, Side::Old, old);
    let right = script_marks(ops, Side::New, new);
    marked_count(deletion, left, left.len() as int) + marked_count(
        addition,
        right,
        right.len() as int,
    )
}

/// Whether a line pair is dissimilar: exactly one of its lines is empty, or an
/// edit script marks too much of it.
pub open spec fn dissimilar(
    deletion: Seq<char>,
    addition: Seq<char>,
    old: Seq<Range<usize>>,
    new: Seq<Range<usize>>,
    ops: Seq<EditOp>,
) -> bool {
    (deletion.len() == 0) != (addition.len() == 0) || exceeds_share(
        script_changed(deletion, addition, old, new, ops),
        non_whitespace_count(deletion) + non_whitespace_count(addition),
    )
}

/// Changed tokens come in ascending order, each among the tokens that the
/// first `n` edits cover.
pub proof fn lemma_changed_tokens(ops: Seq<EditOp>, side: Side, len: int, n: int)
    requires
        tiles(ops, side, len),
        0 <= n <= ops.len(),
    ensures
        0 <= covered(ops, side, n),
        forall|k: int|
            0 <= k < changed_tokens(ops, side, n).len() ==> 0 <= #[trigger] changed_tokens(
                ops,
                side,
                n,
            )[k] < covered(ops, side, n),
        forall|j: int, k: int|
            0 <= j < k < changed_tokens(ops, side, n).len() ==> #[trigger] changed_tokens(
                ops,
                side,
                n,
            )[j] < #[trigger] changed_tokens(ops, side, n)[k],
    decreases n,
{
    if n > 0 {
        lemma_changed_tokens(ops, side, len, n - 1);
        assert(ops[n - 1].count(side) >= 0);
        let before = changed_tokens(ops, side, n - 1);
        let range = ops[n - 1].covers(side);
        assert forall|k: int| 0 <= k < changed_tokens(ops, side, n).len() implies (
        #[trigger] changed_tokens(ops, side, n)[k]) == (if k < before.len() {
            before[k]
        } else {
            range.start + (k - before.len())
        }) by {}
    }
}

/// More edits cover no fewer tokens.
pub proof fn lemma_covered_monotone(ops: Seq<EditOp>, side: Side, len: int, i: int, j: int)
    requires
        tiles(ops, side, len),
        0 <= i <= j <= ops.len(),
    ensures
        covered(ops, side, i) <= covered(ops, side, j),
    decreases j,
{
    if i < j {
        lemma_covered_monotone(ops, side, len, i, j - 1);
        assert(ops[j - 1].count(side) >= 0);
    }
}

/// The changed tokens of a line are ascending ranges of it.
pub proof fn lemma_picked_within(
    content: Seq<char>,
    ranges: Seq<Range<usize>>,
    ops: Seq<EditOp>,
    side: Side,
)
    requires
        within(content, ranges),
        tiles(ops, side, ranges.len() as int),
    ensures
        within(content, picked(ranges, changed_tokens(ops, side, ops.len() as int))),
{
    lemma_changed_tokens(ops, side, ranges.len() as int, ops.len() as int);
}

/// Ascending ranges of a line hold no more characters than the line.
proof fn lemma_marked_bound(content: Seq<char>, ranges: Seq<Range<usize>>, n: int)
    requires
        within(content, ranges),
        0 <= n <= ranges.len(),
        encode_utf8(content).len() <= usize::MAX,
    ensures
        marked_count(content, ranges, n) <= non_whitespace_count(content),
        n > 0 ==> slices(content, Range { start: 0, end: ranges[n - 1].end }) && marked_count(
            content,
            ranges,
            n,
        ) <= non_whitespace_count(chars_in(content, Range { start: 0, end: ranges[n - 1].end })),
    decreases n,
{
    lemma_chars_in_all(content);
    let all = encode_utf8(content).len() as usize;
    if n > 0 {
        let last = ranges[n - 1];
        lemma_marked_bound(content, ranges, n - 1);
        let from: usize = if n > 1 {
            ranges[n - 2].end
        } else {
            0
        };
        assert(from <= last.start);
        lemma_chars_in_split(content, 0, from, last.start);
        lemma_chars_in_split(content, 0, last.start, last.end);
        lemma_chars_in_split(content, 0, last.end, all);
        lemma_count_concat(
            chars_in(content, Range { start: 0, end: from }),
            chars_in(content, Range { start: from, end: last.start }),
        );
        lemma_count_concat(
            chars_in(content, Range { start: 0, end: last.start }),
            chars_in(content, last),
        );
        lemma_count_concat(
            chars_in(content, Range { start: 0, end: last.end }),
            chars_in(content, Range { start: last.end, end: all }),
        );
    }
}

/// The ranges of the tokens of one side that `ops` change.
fn changed_ranges(ops: &Vec<EditOp>, side: Side, ranges: &Vec<Range<usize>>) -> (changed: Vec<
    Range<usize>,
>)
    requires
        tiles(ops@, side, ranges@.len() as int),
    ensures
        changed@ == picked(ranges@, changed_tokens(ops@, side, ops@.len() as int)),
{
    let mut changed: Vec<Range<usize>> = Vec::new();
    let mut i: usize = 0;
    while i < ops.len()
        invariant
            i <= ops.len(),
            tiles(ops@, side, ranges@.len() as int),
            changed@ == picked(ranges@, changed_tokens(ops@, side, i as int)),
        decreases ops.len() - i,
    {
        if ops[i].tag != DiffTag::Equal {
            let (start, end): (usize, usize) = match side {
                Side::Old => (ops[i].old.start, ops[i].old.end),
                Side::New => (ops[i].new.start, ops[i].new.end),
            };
            let ghost before = changed_tokens(ops@, side, i as int);
            proof {
                assert(ops@[i as int].count(side) >= 0);
                lemma_covered_monotone(
                    ops@,
                    side,
                    ranges@.len() as int,
                    i + 1,
                    ops@.len() as int,
                );
            }
            let mut k: usize = start;
            while k < end
                invariant
                    start <= k <= end,
                    start < end ==> end <= ranges@.len(),
                    changed@ == picked(
                        ranges@,
                        before + Seq::new((k - start) as nat, |k: int| start + k),
                    ),
                decreases end - k,
            {
                changed.push(Range { start: ranges[k].start, end: ranges[k].end });
                k = k + 1;
                assert(changed@ =~= picked(
                    ranges@,
                    before + Seq::new((k - start) as nat, |k: int| start + k),
                ));
            }
            assert(changed_tokens(ops@, side, i + 1) =~= before + Seq::new(
                (end - start) as nat,
                |k: int| start + k,
            ));
        }
        i = i + 1;
    }
    changed
}

/// The word ranges that an edit script between the tokens of two lines gives;
/// none when the pair is dissimilar.
pub fn script_word_ranges(
    deletion: &str,
    addition: &str,
    deletion_ranges: &Vec<Range<usize>>,
    addition_ranges: &Vec<Range<usize>>,
    ops: &Vec<EditOp>,
) -> (ranges: WordRanges)
    requires
        within(deletion@, deletion_ranges@),
        within(addition@, addition_ranges@),
        tiles(ops@, Side::Old, deletion_ranges@.len() as int),
        tiles(ops@, Side::New, addition_ranges@.len() as int),
    ensures
        dissimilar(deletion@, addition@, deletion_ranges@, addition_ranges@, ops@)
            ==> ranges.deletion@.len() == 0 && ranges.addition@.len() == 0,
        !dissimilar(deletion@, addition@, deletion_ranges@, addition_ranges@, ops@) ==> {
            &&& ranges.deletion@ == script_marks(ops@, Side::Old, deletion_ranges@)
            &&& ranges.addition@ == script_marks(ops@, Side::New, addition_ranges@)
        },
        separated(ranges.deletion@) && within(deletion@, ranges.deletion@),
        separated(ranges.addition@) && within(addition@, ranges.addition@),
{
    let deletion_bytes: usize = byte_len(deletion);
    let addition_bytes: usize = byte_len(addition);
    let ranges = WordRanges {
        deletion: merge_touching_ranges(changed_ranges(ops, Side::Old, deletion_ranges)),
        addition: merge_touching_ranges(changed_ranges(ops, Side::New, addition_ranges)),
    };
    proof {
        let old = picked(
            deletion_ranges@,
            changed_tokens(ops@, Side::Old, ops@.len() as int),
        );
        let new = picked(
            addition_ranges@,
            changed_tokens(ops@, Side::New, ops@.len() as int),
        );
        lemma_picked_within(deletion@, deletion_ranges@, ops@, Side::Old);
        lemma_picked_within(addition@, addition_ranges@, ops@, Side::New);
        lemma_merged(deletion@, old);
        lemma_merged(addition@, new);
        lemma_marked_bound(deletion@, ranges.deletion@, ranges.deletion@.len() as int);
        lemma_marked_bound(addition@, ranges.addition@, ranges.addition@.len() as int);
        lemma_count_bound(deletion@);
        lemma_count_bound(addition@);
        lemma_at_least_one_byte(deletion@);
        lemma_at_least_one_byte(addition@);
    }
    let changed: u128 = marked_len(deletion, &ranges.deletion) as u128 + marked_len(
        addition,
        &ranges.addition,
    ) as u128;
    let total: u128 = non_whitespace_len(deletion) as u128 + non_whitespace_len(addition) as u128;
    if (deletion_bytes == 0) != (addition_bytes == 0) || changed * ALL_PARTS > total
        * MAX_CHANGED_PARTS {
        return WordRanges::default();
    }
    ranges
}

/// A text holds no more non-whitespace characters than characters.
proof fn lemma_count_bound(chars: Seq<char>)
    ensures
        non_whitespace_count(chars) <= chars.len(),
    decreases chars.len(),
{
    if chars.len() > 0 {
        lemma_count_bound(chars.drop_last());
    }
}

/// Edits that are all equal runs change no token.
proof fn lemma_equal_runs_change_nothing(ops: Seq<EditOp>, side: Side, n: int)
    requires
        0 <= n <= ops.len(),
        forall|i: int| 0 <= i < ops.len() ==> (#[trigger] ops[i]).tag == DiffTag::Equal,
    ensures
        changed_tokens(ops, side, n).len() == 0,
    decreases n,
{
    if n > 0 {
        lemma_equal_runs_change_nothing(ops, side, n - 1);
    }
}

/// Ranges that cover a line hold all of its characters.
proof fn lemma_covers_count(content: Seq<char>, ranges: Seq<Range<usize>>, n: int)
    requires
        covers(content, ranges),
        0 <= n <= ranges.len(),
        encode_utf8(content).len() <= usize::MAX,
    ensures
        n > 0 ==> slices(content, Range { start: 0, end: ranges[n - 1].end }) && marked_count(
            content,
            ranges,
            n,
        ) == non_whitespace_count(chars_in(content, Range { start: 0, end: ranges[n - 1].end })),
        n == ranges.len() ==> marked_count(content, ranges, n) == non_whitespace_count(content),
    decreases n,
{
    lemma_chars_in_all(content);
    if n > 0 {
        let last = ranges[n - 1];
        lemma_covers_count(content, ranges, n - 1);
        if n > 1 {
            assert(ranges[n - 2].end == ranges[n - 1].start);
            lemma_chars_in_split(content, 0, last.start, last.end);
            lemma_count_concat(
                chars_in(content, Range { start: 0, end: last.start }),
                chars_in(content, last),
            );
        } else {
            assert(last == (Range { start: 0, end: last.end }));
            assert(marked_count(content, ranges, 0) == 0);
        }
        assert(marked_count(content, ranges, n) == non_whitespace_count(
            chars_in(content, Range { start: 0, end: last.end }),
        ));
        if n == ranges.len() {
            assert(last == ranges.last());
            assert(last.end == encode_utf8(content).len());
        }
    }
}

/// A text of whitespace alone counts for nothing.
proof fn lemma_all_whitespace_count(chars: Seq<char>)
    requires
        all_whitespace(chars),
    ensures
        non_whitespace_count(chars) == 0,
    decreases chars.len(),
{
    if chars.len() > 0 {
        lemma_all_whitespace_count(chars.drop_last());
    }
}

/// A text that is not whitespace alone counts for something.
proof fn lemma_some_non_whitespace(chars: Seq<char>)
    requires
        !all_whitespace(chars),
    ensures
        non_whitespace_count(chars) > 0,
    decreases chars.len(),
{
    let rest = chars.drop_last();
    if char_is_whitespace(chars.last()) {
        assert(!all_whitespace(rest)) by {
            let i = choose|i: int|
                0 <= i < chars.len() && !char_is_whitespace(#[trigger] chars[i]);
            assert(rest[i] == chars[i]);
        }
        lemma_some_non_whitespace(rest);
    }
}

/// The tokens that take part in the comparison hold all the non-whitespace
/// characters of the tokens.
proof fn lemma_compared_count(
    content: Seq<char>,
    ranges: Seq<Range<usize>>,
    ignore_whitespace: bool,
    n: int,
)
    requires
        0 <= n <= ranges.len(),
    ensures
        ({
            let kept = compared_tokens(content, ranges, ignore_whitespace, n);
            marked_count(content, kept, kept.len() as int) == marked_count(content, ranges, n)
        }),
    decreases n,
{
    if n > 0 {
        lemma_compared_count(content, ranges, ignore_whitespace, n - 1);
        let before = compared_tokens(content, ranges, ignore_whitespace, n - 1);
        let kept = compared_tokens(content, ranges, ignore_whitespace, n);
        if compared(content, ranges[n - 1], ignore_whitespace) {
            lemma_marked_same(content, before, kept, before.len() as int);
        } else {
            lemma_all_whitespace_count(chars_in(content, ranges[n - 1]));
        }
    }
}

/// A token that takes part in the comparison is one of the tokens.
pub proof fn lemma_compared_is_token(
    content: Seq<char>,
    ranges: Seq<Range<usize>>,
    ignore_whitespace: bool,
    n: int,
    k: int,
) -> (j: int)
    requires
        0 <= n <= ranges.len(),
        0 <= k < compared_tokens(content, ranges, ignore_whitespace, n).len(),
    ensures
        0 <= j < n,
        ranges[j] == compared_tokens(content, ranges, ignore_whitespace, n)[k],
        compared(content, ranges[j], ignore_whitespace),
    decreases n,
{
    let before = compared_tokens(content, ranges, ignore_whitespace, n - 1);
    if compared(content, ranges[n - 1], ignore_whitespace) && k == before.len() {
        n - 1
    } else {
        lemma_compared_is_token(content, ranges, ignore_whitespace, n - 1, k)
    }
}

/// Whether no byte of `token` lies in one of `ranges`.
pub open spec fn unmarked(ranges: Seq<Range<usize>>, token: Range<usize>) -> bool {
    forall|at: int| token.start <= at < token.end ==> !#[trigger] marks(ranges, at)
}

/// With whitespace ignored, no edit script marks any byte of a plain
/// whitespace token.
pub proof fn lemma_ignored_whitespace_unmarked(
    content: Seq<char>,
    tokens: Seq<Range<usize>>,
    ops: Seq<EditOp>,
    side: Side,
    t: int,
)
    requires
        within(content, tokens),
        tiles(
            ops,
            side,
            compared_tokens(content, tokens, true, tokens.len() as int).len() as int,
        ),
        0 <= t < tokens.len(),
        all_whitespace(chars_in(content, tokens[t])),
    ensures
        unmarked(
            script_marks(
                ops,
                side,
                compared_tokens(content, tokens, true, tokens.len() as int),
            ),
            tokens[t],
        ),
{
    let n = tokens.len() as int;
    let kept = compared_tokens(content, tokens, true, n);
    let indices = changed_tokens(ops, side, ops.len() as int);
    let changed = picked(kept, indices);
    lemma_compared_within(content, tokens, true, n);
    lemma_picked_within(content, kept, ops, side);
    lemma_merged(content, changed);
    lemma_changed_tokens(ops, side, kept.len() as int, ops.len() as int);
    assert forall|at: int| tokens[t].start <= at < tokens[t].end implies !#[trigger] marks(
        script_marks(ops, side, kept),
        at,
    ) by {
        if marks(script_marks(ops, side, kept), at) {
            assert(marks(changed, at));
            let k = choose|k: int|
                0 <= k < changed.len() && (#[trigger] changed[k]).start <= at < changed[k].end;
            let j = lemma_compared_is_token(content, tokens, true, n, indices[k]);
            assert(j != t);
            if j < t {
                assert(tokens[j].end <= tokens[t].start);
            } else {
                assert(tokens[t].end <= tokens[j].start);
            }
        }
    }
}

/// What a byte range of a blank line holds is blank.
proof fn lemma_blank_part(content: Seq<char>, range: Range<usize>)
    requires
        all_whitespace(content),
        slices(content, range),
    ensures
        non_whitespace_count(chars_in(content, range)) == 0,
{
    let i = lemma_boundary_is_offset(content, range.start as int);
    let j = lemma_boundary_is_offset(content, range.end as int);
    if i <= j {
        lemma_offsets(content, i, j);
    } else {
        lemma_offsets(content, j, i);
        lemma_offsets(content, j, j);
    }
    lemma_all_whitespace_count(chars_in(content, range));
}

/// Two lists of ranges in a row hold the characters of both.
pub proof fn lemma_marked_concat(
    content: Seq<char>,
    a: Seq<Range<usize>>,
    b: Seq<Range<usize>>,
    n: int,
)
    requires
        0 <= n <= b.len(),
    ensures
        marked_count(content, a + b, a.len() + n) == marked_count(content, a, a.len() as int)
            + marked_count(content, b, n),
    decreases n,
{
    if n > 0 {
        lemma_marked_concat(content, a, b, n - 1);
        assert((a + b)[a.len() + n - 1] == b[n - 1]);
    } else {
        lemma_marked_same(content, a + b, a, a.len() as int);
    }
}

/// The characters between two ranges of a list, counted range by range.
proof fn lemma_marked_between(
    content: Seq<char>,
    ranges: Seq<Range<usize>>,
    from: int,
    n: int,
)
    requires
        0 <= from,
        0 <= n,
        from + n <= ranges.len(),
    ensures
        marked_count(content, ranges, from + n) == marked_count(content, ranges, from)
            + marked_count(content, ranges.subrange(from, from + n), n),
    decreases n,
{
    if n > 0 {
        lemma_marked_between(content, ranges, from, n - 1);
        lemma_marked_same(
            content,
            ranges.subrange(from, from + n - 1),
            ranges.subrange(from, from + n),
            n - 1,
        );
    }
}

/// Where the tokens of equal runs hold whitespace alone, the changed tokens
/// hold all non-whitespace characters.
proof fn lemma_changed_hold_all(
    content: Seq<char>,
    ranges: Seq<Range<usize>>,
    ops: Seq<EditOp>,
    side: Side,
    n: int,
)
    requires
        tiles(ops, side, ranges.len() as int),
        0 <= n <= ops.len(),
        forall|i: int, k: int|
            0 <= i < ops.len() && ops[i].tag == DiffTag::Equal && (
            #[trigger] ops[i]).covers(side).start <= k < ops[i].covers(side).end
                ==> non_whitespace_count(chars_in(content, #[trigger] ranges[k])) == 0,
    ensures
        0 <= covered(ops, side, n) <= ranges.len(),
        ({
            let changed = picked(ranges, changed_tokens(ops, side, n));
            marked_count(content, changed, changed.len() as int) == marked_count(
                content,
                ranges,
                covered(ops, side, n),
            )
        }),
    decreases n,
{
    lemma_covered_monotone(ops, side, ranges.len() as int, 0, n);
    lemma_covered_monotone(ops, side, ranges.len() as int, n, ops.len() as int);
    if n > 0 {
        lemma_changed_hold_all(content, ranges, ops, side, n - 1);
        let op = ops[n - 1];
        let from = covered(ops, side, n - 1);
        let count = op.count(side);
        let before = picked(ranges, changed_tokens(ops, side, n - 1));
        let changed = picked(ranges, changed_tokens(ops, side, n));
        assert(count >= 0);
        lemma_marked_between(content, ranges, from, count);
        let here = ranges.subrange(from, from + count);
        if op.tag == DiffTag::Equal {
            lemma_blank_ranges(content, here, count);
        } else {
            assert(changed =~= before + here);
            lemma_marked_concat(content, before, here, count);
        }
    }
}

/// Ranges of whitespace hold no other character.
proof fn lemma_blank_ranges(content: Seq<char>, ranges: Seq<Range<usize>>, n: int)
    requires
        0 <= n <= ranges.len(),
        forall|k: int|
            0 <= k < ranges.len() ==> non_whitespace_count(chars_in(content, #[trigger] ranges[k]))
                == 0,
    ensures
        marked_count(content, ranges, n) == 0,
    decreases n,
{
    if n > 0 {
        lemma_blank_ranges(content, ranges, n - 1);
    }
}

/// Between a blank line and another, equal runs hold whitespace alone, so the
/// changed tokens of the other line hold all of its non-whitespace characters.
proof fn lemma_blank_side_changes_all(
    blank: Seq<char>,
    blank_kept: Seq<Range<usize>>,
    content: Seq<char>,
    tokens: Seq<Range<usize>>,
    ignore_whitespace: bool,
    ops: Seq<EditOp>,
    side: Side,
)
    requires
        all_whitespace(blank),
        within(blank, blank_kept),
        covers(content, tokens),
        encode_utf8(content).len() <= usize::MAX,
        ({
            let kept = range_texts(
                content,
                compared_tokens(content, tokens, ignore_whitespace, tokens.len() as int),
            );
            match side {
                Side::Old => is_edit_script(ops, kept, range_texts(blank, blank_kept)),
                Side::New => is_edit_script(ops, range_texts(blank, blank_kept), kept),
            }
        }),
    ensures
        ({
            let kept = compared_tokens(content, tokens, ignore_whitespace, tokens.len() as int);
            let marked = script_marks(ops, side, kept);
            marked_count(content, marked, marked.len() as int) == non_whitespace_count(content)
        }),
{
    let n = tokens.len() as int;
    let kept = compared_tokens(content, tokens, ignore_whitespace, n);
    let other = match side {
        Side::Old => Side::New,
        Side::New => Side::Old,
    };
    let len = ops.len() as int;
    assert(tiles(ops, side, kept.len() as int));
    assert(tiles(ops, other, blank_kept.len() as int));
    assert forall|i: int, k: int|
        0 <= i < ops.len() && ops[i].tag == DiffTag::Equal && (#[trigger] ops[i]).covers(side).start
            <= k < ops[i].covers(side).end implies non_whitespace_count(
        chars_in(content, #[trigger] kept[k]),
    ) == 0 by {
        let op = ops[i];
        let d = k - op.covers(side).start;
        let m = op.covers(other).start + d;
        assert(op.count(Side::Old) == op.count(Side::New));
        assert(op.count(other) > 0);
        lemma_covered_monotone(ops, side, kept.len() as int, 0, i);
        lemma_covered_monotone(ops, side, kept.len() as int, i + 1, len);
        lemma_covered_monotone(ops, other, blank_kept.len() as int, 0, i);
        lemma_covered_monotone(ops, other, blank_kept.len() as int, i + 1, len);
        assert(0 <= m < blank_kept.len());
        assert(0 <= k < kept.len());
        lemma_blank_part(blank, blank_kept[m]);
        assert(op.old.start + d == if side == Side::Old {
            k
        } else {
            m
        });
        assert(range_texts(content, kept)[k] == range_texts(blank, blank_kept)[m]);
    }
    lemma_changed_hold_all(content, kept, ops, side, len);
    lemma_covers_within(content, tokens);
    lemma_compared_within(content, tokens, ignore_whitespace, n);
    lemma_picked_within(content, kept, ops, side);
    lemma_merged(content, picked(kept, changed_tokens(ops, side, len)));
    lemma_compared_count(content, tokens, ignore_whitespace, n);
    lemma_covers_count(content, tokens, n);
}

/// The tokens of one side, by index, that the first `n` edits leave equal.
pub open spec fn equal_tokens(ops: Seq<EditOp>, side: Side, n: int) -> Seq<int>
    decreases n,
{
    if n <= 0 {
        Seq::empty()
    } else if ops[n - 1].tag == DiffTag::Equal {
        let range = ops[n - 1].covers(side);
        equal_tokens(ops, side, n - 1) + Seq::new(
            (range.end - range.start) as nat,
            |k: int| range.start + k,
        )
    } else {
        equal_tokens(ops, side, n - 1)
    }
}

/// A token that the first `n` edits cover either changes or stays equal.
pub proof fn lemma_changed_or_equal(ops: Seq<EditOp>, side: Side, len: int, n: int, t: int)
    requires
        tiles(ops, side, len),
        0 <= n <= ops.len(),
    ensures
        changed_tokens(ops, side, n).contains(t) || equal_tokens(ops, side, n).contains(t) ==> 0
            <= t < covered(ops, side, n),
        0 <= t < covered(ops, side, n) ==> (changed_tokens(ops, side, n).contains(t)
            <==> !equal_tokens(ops, side, n).contains(t)),
    decreases n,
{
    if n > 0 {
        lemma_changed_or_equal(ops, side, len, n - 1, t);
        lemma_covered_monotone(ops, side, len, 0, n - 1);
        let op = ops[n - 1];
        let range = op.covers(side);
        let here = Seq::new((range.end - range.start) as nat, |k: int| range.start + k);
        assert(op.count(side) >= 0);
        let changed = changed_tokens(ops, side, n - 1);
        let equal = equal_tokens(ops, side, n - 1);
        let grown = if op.tag == DiffTag::Equal {
            equal
        } else {
            changed
        };
        assert((grown + here).contains(t) <==> grown.contains(t) || here.contains(t)) by {
            if grown.contains(t) {
                let i = choose|i: int| 0 <= i < grown.len() && grown[i] == t;
                assert((grown + here)[i] == t);
            }
            if here.contains(t) {
                let i = choose|i: int| 0 <= i < here.len() && here[i] == t;
                assert((grown + here)[grown.len() + i] == t);
            }
        }
        assert(here.contains(t) <==> range.start <= t < range.end) by {
            if range.start <= t < range.end {
                assert(here[t - range.start] == t);
            }
        }
    }
}

/// A token is marked where an edit script changes it, and unmarked elsewhere.
proof fn lemma_token_marked(
    content: Seq<char>,
    ranges: Seq<Range<usize>>,
    ops: Seq<EditOp>,
    side: Side,
    t: int,
)
    requires
        within(content, ranges),
        tiles(ops, side, ranges.len() as int),
        0 <= t < ranges.len(),
    ensures
        unmarked(script_marks(ops, side, ranges), ranges[t]) <==> equal_tokens(
            ops,
            side,
            ops.len() as int,
        ).contains(t),
{
    let indices = changed_tokens(ops, side, ops.len() as int);
    let changed = picked(ranges, indices);
    let marked = script_marks(ops, side, ranges);
    lemma_changed_or_equal(ops, side, ranges.len() as int, ops.len() as int, t);
    lemma_changed_tokens(ops, side, ranges.len() as int, ops.len() as int);
    lemma_picked_within(content, ranges, ops, side);
    lemma_merged(content, changed);
    if indices.contains(t) {
        let k = choose|k: int| 0 <= k < indices.len() && indices[k] == t;
        assert(changed[k] == ranges[t]);
        assert(marks(changed, ranges[t].start as int));
        assert(marks(marked, ranges[t].start as int));
    } else {
        assert forall|at: int| ranges[t].start <= at < ranges[t].end implies !#[trigger] marks(
            marked,
            at,
        ) by {
            if marks(marked, at) {
                assert(marks(changed, at));
                let k = choose|k: int|
                    0 <= k < changed.len() && (#[trigger] changed[k]).start <= at < changed[k].end;
                assert(indices.contains(indices[k]));
                assert(changed[k] == ranges[indices[k]]);
            }
        }
    }
}

/// Equal runs pair tokens with the same text, in order.
proof fn lemma_equal_tokens_agree(
    ops: Seq<EditOp>,
    old: Seq<Seq<char>>,
    new: Seq<Seq<char>>,
    n: int,
)
    requires
        is_edit_script(ops, old, new),
        0 <= n <= ops.len(),
    ensures
        equal_tokens(ops, Side::Old, n).len() == equal_tokens(ops, Side::New, n).len(),
        forall|k: int|
            #![trigger equal_tokens(ops, Side::Old, n)[k]]
            #![trigger equal_tokens(ops, Side::New, n)[k]]
            0 <= k < equal_tokens(ops, Side::Old, n).len() ==> {
                &&& 0 <= equal_tokens(ops, Side::Old, n)[k] < old.len()
                &&& 0 <= equal_tokens(ops, Side::New, n)[k] < new.len()
                &&& old[equal_tokens(ops, Side::Old, n)[k]] == new[equal_tokens(
                    ops,
                    Side::New,
                    n,
                )[k]]
            },
    decreases n,
{
    if n > 0 {
        lemma_equal_tokens_agree(ops, old, new, n - 1);
        let op = ops[n - 1];
        let before_old = equal_tokens(ops, Side::Old, n - 1);
        let before_new = equal_tokens(ops, Side::New, n - 1);
        let left = equal_tokens(ops, Side::Old, n);
        let right = equal_tokens(ops, Side::New, n);
        lemma_covered_monotone(ops, Side::Old, old.len() as int, 0, n - 1);
        lemma_covered_monotone(ops, Side::Old, old.len() as int, n, ops.len() as int);
        lemma_covered_monotone(ops, Side::New, new.len() as int, 0, n - 1);
        lemma_covered_monotone(ops, Side::New, new.len() as int, n, ops.len() as int);
        assert(pairs_equal(op, old, new));
        assert(op.count(Side::Old) >= 0 && op.count(Side::New) >= 0);
        if op.tag == DiffTag::Equal {
            assert forall|k: int|
                #![trigger left[k]]
                #![trigger right[k]]
                0 <= k < left.len() implies {
                &&& 0 <= left[k] < old.len()
                &&& 0 <= right[k] < new.len()
                &&& old[left[k]] == new[right[k]]
            } by {
                if k < before_old.len() {
                    assert(left[k] == before_old[k]);
                    assert(right[k] == before_new[k]);
                } else {
                    let d = k - before_old.len();
                    assert(left[k] == op.old.start + d);
                    assert(right[k] == op.new.start + d);
                    assert(old[op.old.start + d] == new[op.new.start + d]);
                }
            }
        }
    }
}

/// What an edit script leaves unmarked is the same on both sides: the compared
/// tokens without a mark hold the same texts, in the same order.
pub proof fn lemma_unmarked_tokens_agree(
    deletion: Seq<char>,
    addition: Seq<char>,
    old: Seq<Range<usize>>,
    new: Seq<Range<usize>>,
    ops: Seq<EditOp>,
)
    requires
        within(deletion, old),
        within(addition, new),
        is_edit_script(ops, range_texts(deletion, old), range_texts(addition, new)),
    ensures
        ({
            let left = equal_tokens(ops, Side::Old, ops.len() as int);
            let right = equal_tokens(ops, Side::New, ops.len() as int);
            &&& left.len() == right.len()
            &&& forall|k: int|
                0 <= k < left.len() ==> chars_in(deletion, old[#[trigger] left[k]]) == chars_in(
                    addition,
                    new[right[k]],
                )
            &&& forall|t: int|
                0 <= t < old.len() ==> (unmarked(
                    script_marks(ops, Side::Old, old),
                    #[trigger] old[t],
                ) <==> left.contains(t))
            &&& forall|t: int|
                0 <= t < new.len() ==> (unmarked(
                    script_marks(ops, Side::New, new),
                    #[trigger] new[t],
                ) <==> right.contains(t))
        }),
{
    let n = ops.len() as int;
    lemma_equal_tokens_agree(ops, range_texts(deletion, old), range_texts(addition, new), n);
    let left = equal_tokens(ops, Side::Old, n);
    let right = equal_tokens(ops, Side::New, n);
    assert forall|k: int| 0 <= k < left.len() implies chars_in(deletion, old[#[trigger] left[k]])
        == chars_in(addition, new[right[k]]) by {
        assert(range_texts(deletion, old)[left[k]] == range_texts(addition, new)[right[k]]);
    }
    assert forall|t: int| 0 <= t < old.len() implies (unmarked(
        script_marks(ops, Side::Old, old),
        #[trigger] old[t],
    ) <==> left.contains(t)) by {
        lemma_token_marked(deletion, old, ops, Side::Old, t);
    }
    assert forall|t: int| 0 <= t < new.len() implies (unmarked(
        script_marks(ops, Side::New, new),
        #[trigger] new[t],
    ) <==> right.contains(t)) by {
        lemma_token_marked(addition, new, ops, Side::New, t);
    }
}

/// The byte ranges of the changed tokens of a line pair, on the deleted and on
/// the added line; none where the pair is dissimilar.
pub open spec fn word_marks(
    deletion: Seq<char>,
    addition: Seq<char>,
    whitespace_mode: DiffWhitespaceMode,
) -> (Seq<Range<usize>>, Seq<Range<usize>>) {
    let ignore = whitespace_mode == DiffWhitespaceMode::IgnoreAll;
    let old = line_tokens(deletion, grapheme_clusters(deletion), ignore);
    let new = line_tokens(addition, grapheme_clusters(addition), ignore);
    let ops = myers_script(range_texts(deletion, old), range_texts(addition, new));
    if dissimilar(deletion, addition, old, new, ops) {
        (Seq::empty(), Seq::empty())
    } else {
        (script_marks(ops, Side::Old, old), script_marks(ops, Side::New, new))
    }
}

/// Word ranges for a line pair; empty when the pair is dissimilar.
///
/// The two contents are tokenized with [`tokenize`] and the token sequences
/// are diffed; every token outside an equal run is marked, and adjacent
/// marked tokens form one range. Whitespace tokens compare like any other
/// token unless `whitespace_mode` ignores whitespace, in which case they are
/// left out of the comparison and never marked.
///
/// The pair is dissimilar when the non-whitespace characters marked on both
/// sides exceed [`MAX_CHANGED_PARTS`] of the [`ALL_PARTS`] parts of the pair's
/// non-whitespace characters. Lines whose compared tokens are equal, identical
/// lines among them, yield empty ranges; an empty side against a non-empty
/// side is dissimilar, and so is a blank side against one with non-whitespace
/// characters.
pub fn word_ranges(
    deletion: &str,
    addition: &str,
    whitespace_mode: DiffWhitespaceMode,
) -> (ranges: WordRanges)
    ensures
        (ranges.deletion@, ranges.addition@) == word_marks(
            deletion@,
            addition@,
            whitespace_mode,
        ),
        ({
            let ignore = whitespace_mode == DiffWhitespaceMode::IgnoreAll;
            let old = line_tokens(deletion@, grapheme_clusters(deletion@), ignore);
            let new = line_tokens(addition@, grapheme_clusters(addition@), ignore);
            let old_texts = range_texts(deletion@, old);
            let new_texts = range_texts(addition@, new);
            &&& is_edit_script(myers_script(old_texts, new_texts), old_texts, new_texts)
            &&& old_texts == new_texts ==> ranges.deletion@.len() == 0 && ranges.addition@.len()
                == 0
        }),
        marks_the_difference(
            deletion@,
            addition@,
            whitespace_mode,
            ranges.deletion@,
            ranges.addition@,
        ),
        separated(ranges.deletion@) && within(deletion@, ranges.deletion@),
        separated(ranges.addition@) && within(addition@, ranges.addition@),
        !exceeds_share(
            marked_count(deletion@, ranges.deletion@, ranges.deletion@.len() as int) + marked_count(
                addition@,
                ranges.addition@,
                ranges.addition@.len() as int,
            ),
            non_whitespace_count(deletion@) + non_whitespace_count(addition@),
        ),
        deletion@ == addition@ ==> ranges.deletion@.len() == 0 && ranges.addition@.len() == 0,
        (deletion@.len() == 0) != (addition@.len() == 0) ==> ranges.deletion@.len() == 0
            && ranges.addition@.len() == 0,
        all_whitespace(deletion@) != all_whitespace(addition@) ==> ranges.deletion@.len() == 0
            && ranges.addition@.len() == 0,
        whitespace_mode == DiffWhitespaceMode::IgnoreAll ==> forall|t: int|
            0 <= t < token_ranges(grapheme_clusters(deletion@)).len() && all_whitespace(
                chars_in(deletion@, #[trigger] token_ranges(grapheme_clusters(deletion@))[t]),
            ) ==> unmarked(ranges.deletion@, token_ranges(grapheme_clusters(deletion@))[t]),
        whitespace_mode == DiffWhitespaceMode::IgnoreAll ==> forall|t: int|
            0 <= t < token_ranges(grapheme_clusters(addition@)).len() && all_whitespace(
                chars_in(addition@, #[trigger] token_ranges(grapheme_clusters(addition@))[t]),
            ) ==> unmarked(ranges.addition@, token_ranges(grapheme_clusters(addition@))[t]),
{
    let ignore_whitespace = whitespace_mode.ignores_all();
    let deletion_tokens = Tokens::of(deletion, ignore_whitespace);
    let addition_tokens = Tokens::of(addition, ignore_whitespace);
    let ops = capture_diff_slices(&deletion_tokens.texts, &addition_tokens.texts);
    let ranges = script_word_ranges(
        deletion,
        addition,
        &deletion_tokens.ranges,
        &addition_tokens.ranges,
        &ops,
    );
    let _deletion_bytes = byte_len(deletion);
    let _addition_bytes = byte_len(addition);
    proof {
        let old = deletion_tokens.ranges@;
        let new = addition_tokens.ranges@;
        let deletion_all = token_ranges(grapheme_clusters(deletion@));
        let addition_all = token_ranges(grapheme_clusters(addition@));
        lemma_word_diff_marks_the_difference(deletion@, addition@, whitespace_mode);
        if range_texts(deletion@, old) == range_texts(addition@, new) {
            lemma_equal_runs_change_nothing(ops@, Side::Old, ops@.len() as int);
            lemma_equal_runs_change_nothing(ops@, Side::New, ops@.len() as int);
        }
        if all_whitespace(deletion@) != all_whitespace(addition@) {
            if all_whitespace(deletion@) {
                lemma_all_whitespace_count(deletion@);
                lemma_some_non_whitespace(addition@);
                lemma_blank_side_changes_all(
                    deletion@,
                    old,
                    addition@,
                    addition_all,
                    ignore_whitespace,
                    ops@,
                    Side::New,
                );
            } else {
                lemma_all_whitespace_count(addition@);
                lemma_some_non_whitespace(deletion@);
                lemma_blank_side_changes_all(
                    addition@,
                    new,
                    deletion@,
                    deletion_all,
                    ignore_whitespace,
                    ops@,
                    Side::Old,
                );
            }
            assert(dissimilar(deletion@, addition@, old, new, ops@));
        }
        if ignore_whitespace {
            lemma_covers_within(deletion@, deletion_all);
            lemma_covers_within(addition@, addition_all);
            assert forall|t: int|
                0 <= t < deletion_all.len() && all_whitespace(
                    chars_in(deletion@, #[trigger] deletion_all[t]),
                ) implies unmarked(ranges.deletion@, deletion_all[t]) by {
                lemma_ignored_whitespace_unmarked(deletion@, deletion_all, ops@, Side::Old, t);
            }
            assert forall|t: int|
                0 <= t < addition_all.len() && all_whitespace(
                    chars_in(addition@, #[trigger] addition_all[t]),
                ) implies unmarked(ranges.addition@, addition_all[t]) by {
                lemma_ignored_whitespace_unmarked(addition@, addition_all, ops@, Side::New, t);
            }
        }
    }
    ranges
}

} // verus!
