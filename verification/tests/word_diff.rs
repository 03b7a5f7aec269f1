//! Tokens and word ranges of line pairs.

use std::ops::Range;
use tuicr::word_diff::DiffWhitespaceMode::{self, IgnoreAll, Normal};
use tuicr::word_diff::{tokenize, word_ranges};

/// Tabs as the four spaces that lines are shown with.
fn tabify(text: &str) -> String {
    text.replace('\t', "    ")
}

fn tokens(content: &str) -> Vec<&str> {
    tokenize(content).into_iter().map(|r| &content[r]).collect()
}

/// Slicing `content` by each range panics on a non-character boundary,
/// and a rebuilt copy equal to `content` rules out gaps and overlaps.
fn assert_covers(content: &str) {
    let ranges = tokenize(content);
    let mut expected_start = 0;
    for range in &ranges {
        assert_eq!(range.start, expected_start, "gap or overlap in {content:?}");
        assert!(range.start < range.end, "empty token in {content:?}");
        expected_start = range.end;
    }
    assert_eq!(
        expected_start,
        content.len(),
        "tail not covered in {content:?}"
    );
    assert_eq!(tokens(content).concat(), content);
}

#[test]
fn identifier_is_one_token() {
    assert_eq!(tokens("foo_bar_baz"), ["foo_bar_baz"]);
}

#[test]
fn punctuation_is_one_token_per_character() {
    assert_eq!(tokens("foo.bar(baz)"), ["foo", ".", "bar", "(", "baz", ")"]);
}

#[test]
fn number_is_one_token() {
    assert_eq!(tokens("5000"), ["5000"]);
    assert_eq!(tokens("5_000"), ["5_000"]);
}

#[test]
fn indentation_and_trailing_whitespace_are_single_tokens() {
    assert_eq!(
        tokens("    let x = 1;  "),
        ["    ", "let", " ", "x", " ", "=", " ", "1", ";", "  "]
    );
}

#[test]
fn unicode_identifier_is_one_token() {
    assert_eq!(tokens("naïve_café"), ["naïve_café"]);
}

#[test]
fn cjk_run_is_one_token_with_character_boundaries() {
    let content = "日本語 = 値";
    assert_eq!(tokens(content), ["日本語", " ", "=", " ", "値"]);
    assert_covers(content);
}

#[test]
fn grapheme_clusters_never_split_across_tokens() {
    // Combining acute accent in decomposed form.
    assert_eq!(tokens("cafe\u{301} ok"), ["cafe\u{301}", " ", "ok"]);
    // Devanagari virama joining two consonants.
    assert_eq!(tokens("\u{915}\u{94D}\u{937}"), ["\u{915}\u{94D}\u{937}"]);
    // Emoji presentation selector on a punctuation character.
    assert_eq!(tokens("\u{2764}\u{FE0F} x"), ["\u{2764}\u{FE0F}", " ", "x"]);
    // Zero-width joiner sequence.
    assert_eq!(
        tokens("\u{1F468}\u{200D}\u{1F469}"),
        ["\u{1F468}\u{200D}\u{1F469}"]
    );
    // Regional indicator pair: one flag, and two flags are two tokens.
    assert_eq!(
        tokens("\u{1F1FA}\u{1F1F8}\u{1F1EB}\u{1F1F7}"),
        ["\u{1F1FA}\u{1F1F8}", "\u{1F1EB}\u{1F1F7}"]
    );
    // Skin-tone modifier on an emoji base.
    assert_eq!(
        tokens("\u{1F44B}\u{1F3FB} \u{1F44B}\u{1F3FF}"),
        ["\u{1F44B}\u{1F3FB}", " ", "\u{1F44B}\u{1F3FF}"]
    );
}

#[test]
fn tab_expanded_content_tokenizes_on_the_expanded_text() {
    let content = tabify("\tfoo\tbar");
    assert_eq!(tokens(&content), ["    ", "foo", "    ", "bar"]);
}

#[test]
fn empty_line_yields_no_tokens() {
    assert!(tokenize("").is_empty());
}

#[test]
fn tokens_cover_the_whole_input_without_gaps_or_overlaps() {
    for content in [
        "",
        " ",
        "x",
        "foo.bar(baz)",
        "  indented = \"string\";  ",
        "naïve_café → 日本語",
        "🦀 crab_🦀",
    ] {
        assert_covers(content);
    }
}

/// The marked text of each side, so assertions read as words, not offsets.
fn marked<'a>(
    deletion: &'a str,
    addition: &'a str,
    mode: DiffWhitespaceMode,
) -> (Vec<&'a str>, Vec<&'a str>) {
    let ranges = word_ranges(deletion, addition, mode);
    assert_within(deletion, &ranges.deletion);
    assert_within(addition, &ranges.addition);
    let slice = |content: &'a str, ranges: &[Range<usize>]| {
        ranges.iter().map(|r| &content[r.clone()]).collect()
    };
    (
        slice(deletion, &ranges.deletion),
        slice(addition, &ranges.addition),
    )
}

/// Nothing marked on either side.
const PLAIN: (Vec<&str>, Vec<&str>) = (Vec::new(), Vec::new());

/// Ranges are non-empty, ascending, non-overlapping, inside `content`, and
/// start and end on character boundaries.
fn assert_within(content: &str, ranges: &[Range<usize>]) {
    let mut previous_end = 0;
    for range in ranges {
        assert!(range.start < range.end, "empty range in {content:?}");
        assert!(range.start >= previous_end, "overlap in {content:?}");
        assert!(range.end <= content.len(), "past the end of {content:?}");
        assert!(
            content.is_char_boundary(range.start),
            "{content:?} {range:?}"
        );
        assert!(content.is_char_boundary(range.end), "{content:?} {range:?}");
        previous_end = range.end;
    }
}

#[test]
fn one_changed_token_marks_it_on_both_sides() {
    assert_eq!(
        marked("let x = foo;", "let x = bar;", Normal),
        (vec!["foo"], vec!["bar"])
    );
}

#[test]
fn rename_inside_a_longer_line_marks_only_the_name() {
    assert_eq!(
        marked(
            "    let total = compute_total(items, options)?;",
            "    let total = compute_sum(items, options)?;",
            Normal
        ),
        (vec!["compute_total"], vec!["compute_sum"])
    );
}

#[test]
fn several_changed_tokens_produce_several_ranges() {
    assert_eq!(
        marked("let a = foo(bar, baz);", "let a = qux(bar, quux);", Normal),
        (vec!["foo", "baz"], vec!["qux", "quux"])
    );
}

#[test]
fn adjacent_changed_tokens_form_one_range() {
    assert_eq!(
        marked("let value = foo(x);", "let value = bar[x];", Normal),
        (vec!["foo(", ")"], vec!["bar[", "]"])
    );
}

#[test]
fn whitespace_only_change_is_marked() {
    assert_eq!(
        marked("let x = 1;", "let x  = 1;", Normal),
        (vec![" "], vec!["  "])
    );
}

#[test]
fn whitespace_only_change_is_not_marked_when_whitespace_is_ignored() {
    assert_eq!(marked("let x = 1;", "let x  = 1;", IgnoreAll), PLAIN);
    assert_eq!(marked("foo( x, y )", "foo(x, y)", IgnoreAll), PLAIN);
}

#[test]
fn word_and_indent_change_marks_only_the_word_when_whitespace_is_ignored() {
    assert_eq!(
        marked("  let x = foo;", "    let x = bar;", IgnoreAll),
        (vec!["foo"], vec!["bar"])
    );
    assert_eq!(
        marked("  let x = foo;", "    let x = bar;", Normal),
        (vec!["  ", "foo"], vec!["    ", "bar"])
    );
}

#[test]
fn identical_lines_yield_empty_ranges() {
    assert_eq!(marked("let x = 1;", "let x = 1;", Normal), PLAIN);
    assert_eq!(marked("", "", Normal), PLAIN);
}

#[test]
fn rewritten_line_is_a_dissimilar_pair() {
    assert_eq!(marked("let x = foo;", "return bar(baz)", Normal), PLAIN);
}

#[test]
fn guard_splits_pairs_around_the_changed_share() {
    // 20 of 36 non-whitespace characters are marked: 0.56, under the guard.
    assert_eq!(
        marked("fn foo(a: u32) -> u32 {", "fn bar(b: i64) -> i64 {", Normal),
        (
            vec!["foo", "a", "u32", "u32"],
            vec!["bar", "b", "i64", "i64"]
        )
    );
    // 13 of 19 are marked: 0.68, over the guard.
    assert_eq!(marked("foo bar baz", "qux bar quux", Normal), PLAIN);
}

#[test]
fn empty_side_against_non_empty_side_is_a_dissimilar_pair() {
    assert_eq!(marked("", "added", Normal), PLAIN);
    assert_eq!(marked("removed", "", Normal), PLAIN);
    assert_eq!(marked("   ", "added", Normal), PLAIN);
}

#[test]
fn unicode_pairs_produce_boundary_safe_ranges() {
    assert_eq!(
        marked("let x = wörld;", "let x = wörldx;", Normal),
        (vec!["wörld"], vec!["wörldx"])
    );
    assert_eq!(
        marked("let b = wörld;", "let b = wörld!", Normal),
        (vec![";"], vec!["!"])
    );
    assert_eq!(
        marked("日本語 = 値", "日本語 = 値段", Normal),
        (vec!["値"], vec!["値段"])
    );
    assert_eq!(
        marked("x = cafe\u{301} + 1", "x = cafe\u{301} + 2", Normal),
        (vec!["1"], vec!["2"])
    );
    // A changed skin tone marks the whole emoji, never the modifier alone.
    assert_eq!(
        marked(
            "wave \u{1F44B}\u{1F3FB} hi",
            "wave \u{1F44B}\u{1F3FF} hi",
            Normal
        ),
        (vec!["\u{1F44B}\u{1F3FB}"], vec!["\u{1F44B}\u{1F3FF}"])
    );
}

#[test]
fn tab_expanded_pairs_index_the_expanded_text() {
    let deletion = tabify("\tfoo\tbar");
    let addition = tabify("\tfoo\tbaz");
    let ranges = word_ranges(&deletion, &addition, Normal);
    assert_eq!(ranges.deletion, vec![11..14]);
    assert_eq!(ranges.addition, vec![11..14]);
    assert_eq!(&deletion[ranges.deletion[0].clone()], "bar");
}
