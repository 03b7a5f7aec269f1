//! The parts that rows are made of.

use std::collections::HashMap;
use std::ops::Range;
use tuicr::columns::{measure, pad_measured, pad_spans_to_width};
use tuicr::edit_script::{DiffTag, EditOp};
use tuicr::gutter::{
    blank_text, cursor_indicator, cursor_indicator_spaced, sbs_blank_prefixes, sbs_content_width,
    sbs_left_gutter, sbs_overhead, sbs_row_prefixes, Marker, SideSpec,
};
use tuicr::model::{
    ChangeBlock, CommentInput, DiffFile, DiffHunk, ExpandedLines, FileStatus, HunkSegment,
    LineRange,
};
use tuicr::paint::{paint_ranges, Paint};
use tuicr::rows::{InputPlacement, SideBySideRows};
use tuicr::style::{copy_spans, extend_spans, Color, Line, Span, Style, DIM};
use tuicr::text::{byte_len, slice};
use tuicr::theme::Theme;
use tuicr::viewport::{
    clamp_scroll_x, comment_cursor_screen_pos, frame_state, line_widths, max_content_width,
    plain_heights, visible_rows,
};
use tuicr::word_diff::{
    is_whitespace_token, marked_len, merge_touching_ranges, non_whitespace_len,
    script_word_ranges, tokenize_clusters, word_ranges, DiffWhitespaceMode, TokenKind, Tokens,
    WordRanges,
};

fn spans(parts: &[(&str, Style)]) -> Vec<Span> {
    parts.iter().map(|(t, s)| Span::styled(t, *s)).collect()
}

fn text(spans: &[Span]) -> String {
    spans.iter().map(|s| s.content.as_str()).collect()
}

fn cells(spans: &[Span]) -> Vec<(char, Style)> {
    let mut out = Vec::new();
    for span in spans {
        for ch in span.content.chars() {
            out.push((ch, span.style));
        }
    }
    out
}

fn plain() -> Style {
    Style::default()
}

// Styles and paint.

#[test]
fn patching_keeps_what_the_upper_style_leaves_open() {
    let below = Style {
        fg: Some(Color::Red),
        bg: Some(Color::Blue),
        add_modifier: 0b101,
        sub_modifier: 0b1000,
    };
    let over = Style {
        fg: None,
        bg: Some(Color::Green),
        add_modifier: 0b1000,
        sub_modifier: 0b001,
    };
    assert_eq!(
        below.patch(over),
        Style {
            fg: Some(Color::Red),
            bg: Some(Color::Green),
            add_modifier: 0b1100,
            sub_modifier: 0b001,
        }
    );
    assert_eq!(below.patch(plain()), below);
    assert_eq!(DIM, 2);
}

#[test]
fn paint_falls_on_the_characters_whose_first_byte_is_in_a_range() {
    let row = spans(&[("aé", plain()), ("値b", plain().fg(Color::Red))]);
    // a at 0, é at 1, 値 at 3, b at 6.
    let painted = paint_ranges(&row, &vec![1..2, 5..7], Paint::Background(Color::Blue));
    assert_eq!(
        cells(&painted),
        vec![
            ('a', plain()),
            ('é', plain().bg(Color::Blue)),
            ('値', plain().fg(Color::Red)),
            ('b', plain().fg(Color::Red).bg(Color::Blue)),
        ]
    );
}

#[test]
fn painting_over_sets_what_the_style_sets() {
    let row = spans(&[("ab", plain().fg(Color::Red).bg(Color::Blue))]);
    let over = plain().bg(Color::Yellow);
    assert_eq!(
        cells(&paint_ranges(&row, &vec![1..9], Paint::Over(over))),
        vec![
            ('a', plain().fg(Color::Red).bg(Color::Blue)),
            ('b', plain().fg(Color::Red).bg(Color::Yellow)),
        ]
    );
    assert_eq!(
        cells(&paint_ranges(&row, &vec![], Paint::Over(over))),
        cells(&row)
    );
    assert!(paint_ranges(&Vec::new(), &vec![0..3], Paint::Over(over)).is_empty());
}

#[test]
fn spans_are_copied_one_for_one() {
    let row = spans(&[("a", plain()), ("", plain()), ("b", plain().fg(Color::Red))]);
    assert_eq!(cells(&copy_spans(&row)), cells(&row));
    let mut twice = copy_spans(&row);
    extend_spans(&mut twice, &row);
    assert_eq!(text(&twice), "abab");
}

#[test]
fn painting_cuts_spans_at_the_ends_of_marks_alone() {
    let parts = |spans: &[Span]| -> Vec<String> {
        spans.iter().map(|s| s.content.clone()).collect()
    };
    let row = spans(&[("e\u{301}abc", plain()), ("", plain()), ("de", plain())]);
    // e and its mark take three bytes; a starts at 3.
    let painted = paint_ranges(&row, &vec![3..5, 6..7], Paint::Background(Color::Blue));
    assert_eq!(
        parts(&painted),
        vec!["e\u{301}", "ab", "c", "", "d", "e"]
    );
    let painted = paint_ranges(&row, &vec![3..4, 4..7], Paint::Background(Color::Blue));
    assert_eq!(parts(&painted), vec!["e\u{301}", "abc", "", "d", "e"]);
    let untouched = paint_ranges(&row, &vec![40..50], Paint::Background(Color::Blue));
    assert_eq!(parts(&untouched), parts(&row));
}

// Widths.

#[test]
fn wide_characters_take_two_columns() {
    assert_eq!(measure(&spans(&[("値段", plain()), ("x", plain())])), 5);
    assert_eq!(measure(&Vec::new()), 0);
    assert_eq!(measure(&spans(&[("cafe\u{301}", plain())])), 4);
}

#[test]
fn padding_counts_columns_and_keeps_what_is_wider() {
    let pad = plain().bg(Color::Blue);
    let padded = pad_spans_to_width(spans(&[("値", plain())]), 5, pad);
    assert_eq!(
        cells(&padded),
        vec![('値', plain()), (' ', pad), (' ', pad), (' ', pad)]
    );
    assert_eq!(measure(&padded), 5);
    assert_eq!(text(&pad_spans_to_width(spans(&[("abc", plain())]), 3, pad)), "abc");
    assert_eq!(text(&pad_spans_to_width(spans(&[("abc", plain())]), 2, pad)), "abc");
    assert_eq!(text(&pad_measured(spans(&[("ab", plain())]), 1, 4, pad)), "ab   ");
    let once = pad_spans_to_width(spans(&[("a", plain()), ("b", plain())]), 4, pad);
    assert_eq!(once.len(), 3, "one span of spaces is added");
    assert_eq!(cells(&pad_spans_to_width(copy_spans(&once), 4, pad)), cells(&once));
}

#[test]
fn line_widths_and_their_maximum() {
    let lines = vec![
        Line {
            spans: spans(&[("ab", plain()), ("値", plain())]),
        },
        Line { spans: Vec::new() },
        Line {
            spans: spans(&[("abc", plain())]),
        },
    ];
    let widths = line_widths(&lines);
    assert_eq!(widths, vec![4, 0, 3]);
    assert_eq!(max_content_width(&widths), 4);
    assert_eq!(max_content_width(&Vec::new()), 0);
}

// The gutter.

fn theme() -> Theme {
    let style = Style::default();
    Theme {
        diff_context_style: style,
        diff_add_style: style,
        diff_del_style: style,
        expanded_context_style: style,
        dim_style: style.fg(Color::DarkGray),
        current_line_indicator_style: style,
        file_header_style: style,
        search_match_style: style,
        diff_add: Color::Reset,
        diff_del: Color::Reset,
        syntax_add_bg: Color::Reset,
        syntax_del_bg: Color::Reset,
        word_add_bg: Color::Reset,
        word_del_bg: Color::Reset,
        syntax_word_add_bg: Color::Reset,
        syntax_word_del_bg: Color::Reset,
        fg_secondary: Color::Reset,
    }
}

#[test]
fn indicators_mark_the_cursor_row() {
    assert_eq!(cursor_indicator(4, 4), "▶");
    assert_eq!(cursor_indicator(4, 5), " ");
    assert_eq!(cursor_indicator_spaced(4, 4), "▶ ");
    assert_eq!(cursor_indicator_spaced(4, 5), "  ");
}

#[test]
fn blank_prefixes_keep_the_divider() {
    let (left, right) = sbs_blank_prefixes(&theme(), 2);
    assert_eq!(text(&left), "     ");
    assert_eq!(text(&right), " │     ");
    assert_eq!(right[0].style, plain().fg(Color::DarkGray));
    assert_eq!(right[1].style, plain());
    assert_eq!((measure(&left), measure(&right)), (5, 7));
    assert_eq!(
        text(&left).chars().count() + text(&right).chars().count(),
        sbs_overhead(2) as usize
    );
    let side = |lineno: Option<u32>, marker: Marker| SideSpec {
        lineno,
        marker,
        marker_style: plain(),
    };
    let (row_left, row_right) = sbs_row_prefixes(
        &theme(),
        "▶",
        side(Some(7), Marker::Bar),
        side(None, Marker::Blank),
        2,
    );
    assert_eq!((measure(&row_left), measure(&row_right)), (5, 7));
    assert_eq!(text(&left).chars().count(), sbs_left_gutter(2) as usize);
    assert_eq!(blank_text(0), "");
}

#[test]
fn glyphs_of_the_gutter_take_one_column_each() {
    let columns = |text: &str| measure(&spans(&[(text, plain())]));
    assert_eq!(columns(cursor_indicator(3, 3)), 1);
    assert_eq!(columns(cursor_indicator_spaced(3, 3)), 2);
    assert_eq!(columns(Marker::Bar.text()), 1);
    assert_eq!(columns(" │ "), 3);
    assert_eq!(columns("▶ 7▌ │ "), 7);
    assert_eq!(columns("漢"), 2);
}

#[test]
fn columns_share_what_the_gutters_leave() {
    assert_eq!(sbs_overhead(1), 10);
    assert_eq!(sbs_content_width(158, 1), 74);
    assert_eq!(sbs_content_width(11, 1), 0);
    assert_eq!(sbs_content_width(3, 1), 0);
}

// The viewport.

#[test]
fn rows_on_screen_are_cut_at_the_end() {
    assert_eq!(visible_rows(10, 3, 4), 3..7);
    assert_eq!(visible_rows(10, 8, 4), 8..10);
    assert_eq!(visible_rows(10, 12, 4), 10..10);
    assert_eq!(visible_rows(0, 0, 4), 0..0);
    assert_eq!(visible_rows(10, 3, usize::MAX), 3..10);
}

#[test]
fn sideways_scroll_stops_at_the_widest_row() {
    assert_eq!(clamp_scroll_x(3, 20, 15, false), 3);
    assert_eq!(clamp_scroll_x(9, 20, 15, false), 5);
    assert_eq!(clamp_scroll_x(9, 10, 15, false), 0);
    assert_eq!(clamp_scroll_x(3, 20, 15, true), 0);
}

#[test]
fn a_frame_leaves_its_state_behind() {
    let mut out = SideBySideRows::new();
    let state = frame_state(&out, 15, 8, &vec![4, 20, 3], 9, false);
    assert_eq!(state.viewport_height, 8);
    assert_eq!(state.max_content_width, 20);
    assert_eq!(state.scroll_x, 5);
    assert_eq!(state.comment_input_annotation_offset, None);
    out.input = Some(InputPlacement {
        cursor_line: 3,
        cursor_column: 1,
        box_start: 2,
        box_end: 4,
        annotation_len: 3,
        annotations_replaced: 1,
    });
    let state = frame_state(&out, 15, 8, &vec![], 9, true);
    assert_eq!((state.max_content_width, state.scroll_x), (0, 0));
    assert_eq!(state.comment_input_annotation_offset, Some((2, 3, 1)));
}

#[test]
fn unwrapped_rows_take_one_screen_row() {
    assert_eq!(plain_heights(3), vec![1, 1, 1]);
}

#[test]
fn the_text_cursor_is_placed_below_wrapped_rows() {
    let heights = vec![2, 3, 1];
    assert_eq!(
        comment_cursor_screen_pos(7, 4, 5, 10, true, 20, &heights, 1, 2),
        Some((5, 7))
    );
    assert_eq!(
        comment_cursor_screen_pos(7, 4, 5, 10, false, 20, &heights, 1, 2),
        Some((5, 4))
    );
    // Rows past the known ones count one each.
    assert_eq!(
        comment_cursor_screen_pos(10, 0, 5, 10, true, 20, &heights, 0, 0),
        Some((0, 8))
    );
    assert_eq!(
        comment_cursor_screen_pos(7, 4, 5, 10, true, 0, &heights, 1, 2),
        Some((5, 4))
    );
}

#[test]
fn a_cursor_off_screen_has_no_position() {
    let heights = vec![1; 4];
    assert_eq!(
        comment_cursor_screen_pos(4, 0, 5, 3, false, 20, &heights, 0, 0),
        None
    );
    assert_eq!(
        comment_cursor_screen_pos(8, 0, 5, 3, false, 20, &heights, 0, 0),
        None
    );
    // At least one row is always on screen.
    assert_eq!(
        comment_cursor_screen_pos(5, 0, 5, 0, false, 20, &heights, 0, 0),
        Some((0, 0))
    );
}

// The model.

#[test]
fn blocks_pair_lines_by_position() {
    let block = ChangeBlock {
        deletions: vec![1, 2],
        additions: vec![3],
    };
    assert_eq!(block.rows(), vec![(Some(1), Some(3)), (Some(2), None)]);
    let block = ChangeBlock {
        deletions: vec![],
        additions: vec![0, 5],
    };
    assert_eq!(block.rows(), vec![(None, Some(0)), (None, Some(5))]);
    assert!(block.is_inside(6));
    assert!(!block.is_inside(5));
    assert_eq!(LineRange::single(3), LineRange { start: 3, end: 3 });
}

fn hunk_with(segments: Vec<HunkSegment>, new_start: u32, new_count: u32) -> DiffHunk {
    DiffHunk {
        header: String::new(),
        header_style: plain(),
        lines: Vec::new(),
        segments,
        new_start,
        new_count,
        gap_before: 0,
        shows_gap: false,
        expanded: ExpandedLines {
            top: Vec::new(),
            bottom: Vec::new(),
        },
        is_collapsed: false,
    }
}

fn file_with(hunks: Vec<DiffHunk>, line_count: Option<u32>) -> DiffFile {
    DiffFile {
        path: String::new(),
        header: String::new(),
        status: FileStatus::Modified,
        hunks,
        is_binary: false,
        is_too_large: false,
        is_commit_message: false,
        empty_label: String::new(),
        passes_filter: true,
        is_reviewed: false,
        is_collapsed: false,
        file_comments: Vec::new(),
        line_comments: HashMap::new(),
        line_count,
        expanded_end: ExpandedLines {
            top: Vec::new(),
            bottom: Vec::new(),
        },
    }
}

#[test]
fn malformed_parts_are_told_apart() {
    assert!(hunk_with(vec![], 1, 1).is_wf());
    assert!(!hunk_with(vec![HunkSegment::Context(0)], 1, 1).is_wf());
    assert!(file_with(vec![], Some(u32::MAX)).is_wf(true));
    assert!(file_with(vec![hunk_with(vec![], 1, 1)], Some(u32::MAX)).is_wf(true));
    assert!(!file_with(vec![hunk_with(vec![], u32::MAX, 1)], None).is_wf(true));
    assert!(!file_with(vec![hunk_with(vec![], 0, 0)], Some(u32::MAX)).is_wf(true));
    assert!(file_with(vec![hunk_with(vec![], 0, 0)], Some(7)).is_wf(true));
    // Lines after the last hunk need no count where they are never shown.
    assert!(file_with(vec![hunk_with(vec![], u32::MAX, 1)], None).is_wf(false));
    let mut deleted = file_with(vec![hunk_with(vec![], u32::MAX, 1)], None);
    deleted.status = FileStatus::Deleted;
    assert!(deleted.is_wf(true));
    let input = |line_offset: usize, column: u16| CommentInput {
        lines: vec![Line { spans: Vec::new() }],
        line_offset,
        column,
    };
    assert!(input(1, 0).is_wf());
    assert!(!input(2, 0).is_wf());
    assert!(!input(0, u16::MAX).is_wf());
}

// Words.

#[test]
fn an_empty_line_against_a_blank_one_is_dissimilar() {
    for (deletion, addition) in [("", "   "), ("   ", ""), ("", " \u{301}")] {
        let ranges: WordRanges = word_ranges(deletion, addition, DiffWhitespaceMode::Normal);
        assert!(ranges.deletion.is_empty() && ranges.addition.is_empty());
    }
    let ops = vec![op(DiffTag::Insert, 0..0, 0..1)];
    let ranges = script_word_ranges("", "   ", &vec![], &vec![0..3], &ops);
    assert!(ranges.addition.is_empty());
    // Neither side is empty: blanks that change are marked.
    let ranges = word_ranges(" ", "   ", DiffWhitespaceMode::Normal);
    assert_eq!((ranges.deletion, ranges.addition), (vec![0..1], vec![0..3]));
}

#[test]
fn byte_ranges_of_text() {
    assert_eq!(byte_len("aé値"), 6);
    assert_eq!(slice("aé値", &(1..6)), "é値");
    assert_eq!(slice("aé値", &(3..3)), "");
}

#[test]
fn clusters_are_classified_by_their_first_character() {
    assert!(TokenKind::of("e\u{301}") == TokenKind::Identifier);
    assert!(TokenKind::of("_") == TokenKind::Identifier);
    assert!(TokenKind::of(" \u{301}") == TokenKind::Whitespace);
    assert!(TokenKind::of("+") == TokenKind::Punctuation);
    assert!(TokenKind::of("") == TokenKind::Punctuation);
    assert!(TokenKind::Identifier.forms_runs());
    assert!(TokenKind::Whitespace.forms_runs());
    assert!(!TokenKind::Punctuation.forms_runs());
}

#[test]
fn given_clusters_make_tokens() {
    let clusters = vec![(0, "ab"), (2, "c"), (3, "+"), (4, "+"), (5, " ")];
    assert_eq!(
        tokenize_clusters("abc++ ", &clusters),
        vec![0..3, 3..4, 4..5, 5..6]
    );
    assert_eq!(tokenize_clusters("", &Vec::new()), Vec::<Range<usize>>::new());
}

#[test]
fn whitespace_is_the_list_of_white_space_characters() {
    for code in 0..=0x10ffffu32 {
        let Some(ch) = char::from_u32(code) else {
            continue;
        };
        let listed = matches!(
            code,
            0x9..=0xd
                | 0x20
                | 0x85
                | 0xa0
                | 0x1680
                | 0x2000..=0x200a
                | 0x2028
                | 0x2029
                | 0x202f
                | 0x205f
                | 0x3000
        );
        assert_eq!(is_whitespace_token(&ch.to_string()), listed, "U+{code:04X}");
        if code < 0x80 && ch != '_' {
            let identifier = TokenKind::of(&ch.to_string()) == TokenKind::Identifier;
            assert_eq!(identifier, ch.is_ascii_alphanumeric(), "U+{code:04X}");
        }
    }
}

#[test]
fn what_a_script_leaves_unmarked_is_the_same_on_both_sides() {
    let (deletion, addition) = ("let total = sum(a, b);", "let total = sum(a, c, d);");
    let ranges = word_ranges(deletion, addition, DiffWhitespaceMode::Normal);
    let rest = |content: &str, ranges: &[Range<usize>]| -> String {
        Tokens::of(content, false)
            .ranges
            .iter()
            .filter(|t| !ranges.iter().any(|r| r.start <= t.start && t.start < r.end))
            .map(|t| &content[t.clone()])
            .collect()
    };
    assert!(!ranges.addition.is_empty());
    assert_eq!(
        rest(deletion, &ranges.deletion),
        rest(addition, &ranges.addition)
    );
}

#[test]
fn whitespace_with_a_mark_is_not_plain_whitespace() {
    assert!(is_whitespace_token("  \t"));
    assert!(is_whitespace_token(""));
    assert!(!is_whitespace_token(" \u{301}"));
    assert_eq!(non_whitespace_len("a b\u{301} "), 3);
    assert_eq!(marked_len("ab cd ef", &vec![0..4, 6..7]), 4);
}

#[test]
fn touching_ranges_merge_and_others_stay_apart() {
    assert_eq!(
        merge_touching_ranges(vec![0..2, 2..3, 5..6, 6..9]),
        vec![0..3, 5..9]
    );
    assert_eq!(merge_touching_ranges(vec![]), Vec::<Range<usize>>::new());
}

#[test]
fn tokens_leave_whitespace_out_where_it_is_ignored() {
    let all = Tokens::of("a  b", false);
    assert_eq!(all.texts, vec!["a", "  ", "b"]);
    let compared = Tokens::of("a  b", true);
    assert_eq!(compared.texts, vec!["a", "b"]);
    assert_eq!(compared.ranges, vec![0..1, 3..4]);
}

fn op(tag: DiffTag, old: Range<usize>, new: Range<usize>) -> EditOp {
    EditOp { tag, old, new }
}

#[test]
fn an_edit_script_marks_what_it_changes() {
    // "aaaa b c" to "aaaa x c".
    let old = vec![0..4, 4..5, 5..6, 6..7, 7..8];
    let new = vec![0..4, 4..5, 5..6, 6..7, 7..8];
    let ops = vec![
        op(DiffTag::Equal, 0..2, 0..2),
        op(DiffTag::Replace, 2..3, 2..3),
        op(DiffTag::Equal, 3..5, 3..5),
    ];
    let ranges = script_word_ranges("aaaa b c", "aaaa x c", &old, &new, &ops);
    assert_eq!(ranges.deletion, vec![5..6]);
    assert_eq!(ranges.addition, vec![5..6]);

    let ops = vec![op(DiffTag::Delete, 0..5, 0..0), op(DiffTag::Insert, 5..5, 0..5)];
    let ranges = script_word_ranges("aaaa b c", "aaaa x c", &old, &new, &ops);
    assert!(ranges.deletion.is_empty() && ranges.addition.is_empty());
}

#[test]
fn the_largest_share_itself_is_still_marked() {
    // Three of five characters, on both sides together six of ten.
    let ops = vec![
        op(DiffTag::Equal, 0..1, 0..1),
        op(DiffTag::Replace, 1..2, 1..2),
    ];
    let ranges = script_word_ranges("aabbb", "aaccc", &vec![0..2, 2..5], &vec![0..2, 2..5], &ops);
    assert_eq!(ranges.deletion, vec![2..5]);
    let ranges = script_word_ranges("abbb", "accc", &vec![0..1, 1..4], &vec![0..1, 1..4], &ops);
    assert!(ranges.deletion.is_empty());
}

#[test]
fn lines_equal_but_for_ignored_whitespace_are_unmarked() {
    let ranges = word_ranges("a  +b", " a + b ", DiffWhitespaceMode::IgnoreAll);
    assert!(ranges.deletion.is_empty() && ranges.addition.is_empty());
    assert!(WordRanges::default().deletion.is_empty());
}
