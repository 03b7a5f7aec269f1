//! Side-by-side documents drawn on a character grid.

use std::collections::{HashMap, HashSet};
use std::ops::Range;
use tuicr::context::{InputMode, Labels, SideBySideContext};
use tuicr::gutter::{sbs_content_width, sbs_left_gutter, sbs_overhead};
use tuicr::model::{
    ChangeBlock, Comment, CommentInput, DiffFile, DiffHunk, DiffLine, ExpandedLines, FileStatus,
    HunkSegment, LineOrigin, LineRange, LineSide, RemoteCommentSide, RemoteReviewThread,
};
use tuicr::rows::{
    ColumnsRow, CommentBarAnchor, ExpandDirection, GapStub, InputPlacement, Row, SideBySideRows,
};
use tuicr::side_by_side::{render_side_by_side_diff, ReviewDocument, ReviewSummary};
use tuicr::style::{Color, Line, Span, Style, DIM};
use tuicr::theme::Theme;
use tuicr::viewport::{
    clamp_scroll_x, direct_row, line_widths, max_content_width, plain_heights, visible_rows,
    wrap_rows, RowWraps,
};
use tuicr::word_diff::DiffWhitespaceMode;
use unicode_width::{UnicodeWidthChar, UnicodeWidthStr};

const CURSOR_BG: Color = Color::Indexed(200);

fn dark() -> Theme {
    Theme {
        diff_context_style: Style::default().fg(Color::Gray),
        diff_add_style: Style::default().fg(Color::Green).bg(Color::Indexed(22)),
        diff_del_style: Style::default().fg(Color::Red).bg(Color::Indexed(52)),
        expanded_context_style: Style::default().fg(Color::DarkGray),
        dim_style: Style::default().fg(Color::DarkGray),
        current_line_indicator_style: Style::default().fg(Color::Cyan),
        file_header_style: Style::default().fg(Color::White),
        search_match_style: Style::default().fg(Color::Black).bg(Color::Yellow),
        diff_add: Color::Green,
        diff_del: Color::Red,
        syntax_add_bg: Color::Indexed(23),
        syntax_del_bg: Color::Indexed(53),
        word_add_bg: Color::Indexed(28),
        word_del_bg: Color::Indexed(88),
        syntax_word_add_bg: Color::Indexed(29),
        syntax_word_del_bg: Color::Indexed(89),
        fg_secondary: Color::LightBlue,
    }
}

fn text_line(text: &str) -> Line {
    Line {
        spans: vec![Span::styled(text, Style::default())],
    }
}

fn diff_line(origin: LineOrigin, content: &str, old: Option<u32>, new: Option<u32>) -> DiffLine {
    DiffLine {
        origin,
        content: content.to_string(),
        old_lineno: old,
        new_lineno: new,
        highlighted_spans: None,
        search_matches: Vec::new(),
    }
}

fn nothing_expanded() -> ExpandedLines {
    ExpandedLines {
        top: Vec::new(),
        bottom: Vec::new(),
    }
}

/// Context lines one by one, and each run of deletions with the additions
/// after it as one block.
fn segments(lines: &[DiffLine]) -> Vec<HunkSegment> {
    let mut out = Vec::new();
    let mut i = 0;
    while i < lines.len() {
        if lines[i].origin == LineOrigin::Context {
            out.push(HunkSegment::Context(i));
            i += 1;
            continue;
        }
        let mut deletions = Vec::new();
        while i < lines.len() && lines[i].origin == LineOrigin::Deletion {
            deletions.push(i);
            i += 1;
        }
        let mut additions = Vec::new();
        while i < lines.len() && lines[i].origin == LineOrigin::Addition {
            additions.push(i);
            i += 1;
        }
        out.push(HunkSegment::ChangeBlock(ChangeBlock {
            deletions,
            additions,
        }));
    }
    out
}

fn hunk(header: &str, lines: Vec<DiffLine>, new_start: u32, new_count: u32) -> DiffHunk {
    DiffHunk {
        header: header.to_string(),
        header_style: Style::default().fg(Color::Magenta),
        segments: segments(&lines),
        lines,
        new_start,
        new_count,
        gap_before: 0,
        shows_gap: true,
        expanded: nothing_expanded(),
        is_collapsed: false,
    }
}

fn file_of(hunks: Vec<DiffHunk>) -> DiffFile {
    DiffFile {
        path: "src/lib.rs".to_string(),
        header: "═══ src/lib.rs [M] ".to_string(),
        status: FileStatus::Modified,
        hunks,
        is_binary: false,
        is_too_large: false,
        is_commit_message: false,
        empty_label: "(binary file)".to_string(),
        passes_filter: true,
        is_reviewed: false,
        is_collapsed: false,
        file_comments: Vec::new(),
        line_comments: HashMap::new(),
        line_count: None,
        expanded_end: nothing_expanded(),
    }
}

/// A document with what the screen needs to show it.
struct App {
    doc: ReviewDocument,
    ctx: SideBySideContext,
    wrap: bool,
    scroll_offset: usize,
    scroll_x: usize,
}

fn app_with(files: Vec<DiffFile>) -> App {
    App {
        doc: ReviewDocument {
            pr_info: Vec::new(),
            shows_review_comments_header: false,
            review_summaries: Vec::new(),
            review_comments: Vec::new(),
            issue_comments: Vec::new(),
            files,
        },
        ctx: SideBySideContext {
            theme: dark(),
            labels: Labels {
                review_comments_header: "═══ Review Comments ".to_string(),
                header_rule: "═".repeat(60),
                reviewed_banner: "reviewed".to_string(),
            },
            current_line_idx: 0,
            lineno_width: 1,
            relative_line_numbers: false,
            is_single_file_view: false,
            current_file_idx: 0,
            input_mode: InputMode::Normal,
            comment_is_file_level: false,
            comment_is_review_level: false,
            comment_line: None,
            comment_line_range: None,
            editing_comment_id: None,
            comment_input: CommentInput {
                lines: Vec::new(),
                line_offset: 0,
                column: 0,
            },
            visible_start: 0,
            visible_end: usize::MAX,
            search_rows: HashSet::new(),
            word_diff: true,
            whitespace_mode: DiffWhitespaceMode::Normal,
            gap_expand_batch: 20,
            shows_end_gaps: true,
            hides_remote_comments: false,
            remote_threads: Vec::new(),
        },
        wrap: false,
        scroll_offset: 0,
        scroll_x: 0,
    }
}

impl App {
    fn rows(&self) -> SideBySideRows {
        render_side_by_side_diff(&self.doc, &self.ctx)
    }
}

/// One context line, then a block of deletions and additions.
fn change_block_file(context: &str, deletions: &[&str], additions: &[&str]) -> DiffFile {
    let mut lines = vec![diff_line(LineOrigin::Context, context, Some(1), Some(1))];
    for (i, text) in deletions.iter().enumerate() {
        lines.push(diff_line(LineOrigin::Deletion, text, Some(i as u32 + 2), None));
    }
    for (i, text) in additions.iter().enumerate() {
        lines.push(diff_line(LineOrigin::Addition, text, None, Some(i as u32 + 2)));
    }
    let count = additions.len() as u32 + 1;
    file_of(vec![hunk("@@ -1 +1 @@", lines, 1, count)])
}

fn pair_app(deletion: &str, addition: &str) -> App {
    app_with(vec![change_block_file("context", &[deletion], &[addition])])
}

// The screen: a bordered panel of cells. A wide character takes its cell and an
// empty one.

#[derive(Clone)]
struct Glyph {
    symbol: String,
    style: Style,
}

struct Buffer {
    width: usize,
    rows: Vec<Vec<Glyph>>,
}

fn glyph(symbol: &str, style: Style) -> Glyph {
    Glyph {
        symbol: symbol.to_string(),
        style,
    }
}

fn glyphs(spans: &[Span]) -> Vec<Glyph> {
    let mut out = Vec::new();
    for span in spans {
        for ch in span.content.chars() {
            out.push(glyph(&ch.to_string(), span.style));
            for _ in 1..ch.width().unwrap_or(0) {
                out.push(glyph("", span.style));
            }
        }
    }
    out
}

/// Cut to `width` columns with an ellipsis, or pad up to it.
fn fit(spans: &[Span], width: usize, pad: Style) -> Vec<Span> {
    let total: usize = spans.iter().map(|s| s.content.width()).sum();
    let mut out = Vec::new();
    let mut used = 0;
    let room = if total <= width {
        width
    } else {
        width.saturating_sub(3)
    };
    for span in spans {
        let mut kept = String::new();
        for ch in span.content.chars() {
            let columns = ch.width().unwrap_or(0);
            if used + columns > room {
                break;
            }
            used += columns;
            kept.push(ch);
        }
        out.push(Span::styled(&kept, span.style));
    }
    if total > width {
        out.push(Span::styled("...", pad));
        used += 3;
    }
    out.push(Span::styled(&" ".repeat(width.saturating_sub(used)), pad));
    out
}

/// Wrap at `width` columns.
fn wrap_spans(spans: &[Span], width: usize) -> Vec<Line> {
    let mut lines = vec![Line { spans: Vec::new() }];
    let mut used = 0;
    for span in spans {
        for ch in span.content.chars() {
            let columns = ch.width().unwrap_or(0);
            if used + columns > width {
                lines.push(Line { spans: Vec::new() });
                used = 0;
            }
            used += columns;
            let last = lines.len() - 1;
            lines[last].spans.push(Span::styled(&ch.to_string(), span.style));
        }
    }
    lines
}

fn shown_line(row: &Row, content_width: usize) -> Line {
    match row {
        Row::Full(line) => Line {
            spans: line
                .spans
                .iter()
                .map(|s| Span::styled(&s.content, s.style))
                .collect(),
        },
        Row::Columns(ColumnsRow {
            left_cell,
            right_cell,
            meta,
            ..
        }) => direct_row(
            meta,
            &fit(left_cell, content_width, meta.left_pad_style),
            &fit(right_cell, content_width, meta.right_pad_style),
        ),
        Row::Gap { remaining, .. } => text_line(&format!("... {remaining} lines ...")),
    }
}

fn draw_sbs(app: &mut App, width: usize, height: usize) -> Buffer {
    let (inner_width, inner_height) = (width - 2, height - 2);
    app.ctx.visible_start = app.scroll_offset;
    app.ctx.visible_end = app.scroll_offset + inner_height;
    let content_width = sbs_content_width(inner_width as u16, app.ctx.lineno_width);
    let out = app.rows();
    let visible = visible_rows(out.rows.len(), app.scroll_offset, inner_height);
    let unscrolled: Vec<Line> = out.rows[visible.clone()]
        .iter()
        .map(|row| shown_line(row, content_width))
        .collect();
    let max_width = max_content_width(&line_widths(&unscrolled));
    app.scroll_x = clamp_scroll_x(app.scroll_x, max_width, inner_width, app.wrap);
    let (heights, lines) = if app.wrap && content_width > 0 {
        let wraps: Vec<RowWraps> = out.rows[visible.clone()]
            .iter()
            .zip(&unscrolled)
            .map(|(row, line)| match row {
                Row::Columns(ColumnsRow { meta, .. }) => RowWraps {
                    left: if meta.left_content.is_empty() {
                        Vec::new()
                    } else {
                        wrap_spans(&meta.left_content, content_width)
                    },
                    right: if meta.right_content.is_empty() {
                        Vec::new()
                    } else {
                        wrap_spans(&meta.right_content, content_width)
                    },
                    full: Vec::new(),
                },
                _ => RowWraps {
                    left: Vec::new(),
                    right: Vec::new(),
                    full: wrap_spans(&line.spans, inner_width),
                },
            })
            .collect();
        wrap_rows(
            &out.rows,
            visible.start,
            &wraps,
            content_width,
            &app.ctx.theme,
            app.ctx.lineno_width,
        )
    } else {
        (plain_heights(unscrolled.len()), unscrolled)
    };
    assert_eq!(heights.iter().sum::<usize>(), lines.len());

    let mut rows = vec![vec![glyph("─", Style::default()); width]];
    let mut drawn = 0;
    for (i, taken) in heights.iter().enumerate() {
        for _ in 0..*taken {
            let mut cells = glyphs(&lines[drawn].spans);
            drawn += 1;
            cells.drain(..app.scroll_x.min(cells.len()));
            cells.resize(inner_width, glyph(" ", Style::default()));
            if visible.start + i == app.ctx.current_line_idx {
                for cell in &mut cells {
                    if cell.style.bg != app.ctx.theme.search_match_style.bg {
                        cell.style.bg = Some(CURSOR_BG);
                    }
                }
            }
            cells.insert(0, glyph("│", Style::default()));
            cells.push(glyph("│", Style::default()));
            rows.push(cells);
        }
    }
    rows.truncate(height - 1);
    while rows.len() < height - 1 {
        let mut cells = vec![glyph(" ", Style::default()); width];
        cells[0] = glyph("│", Style::default());
        cells[width - 1] = glyph("│", Style::default());
        rows.push(cells);
    }
    rows.push(vec![glyph("─", Style::default()); width]);
    Buffer { width, rows }
}

fn row_text(buffer: &Buffer, y: usize) -> String {
    buffer.rows[y].iter().map(|g| g.symbol.as_str()).collect()
}

fn body_text(buffer: &Buffer) -> String {
    (0..buffer.rows.len())
        .map(|y| row_text(buffer, y))
        .collect::<Vec<_>>()
        .join("\n")
}

fn row_containing(buffer: &Buffer, needle: &str) -> usize {
    (0..buffer.rows.len())
        .find(|&y| row_text(buffer, y).contains(needle))
        .unwrap_or_else(|| panic!("no row with {needle:?}:\n{}", body_text(buffer)))
}

fn cells_with_bg(buffer: &Buffer, y: usize, color: Color) -> Vec<usize> {
    (0..buffer.width)
        .filter(|&x| buffer.rows[y][x].style.bg == Some(color))
        .collect()
}

fn text_with_bg(buffer: &Buffer, y: usize, color: Color) -> String {
    cells_with_bg(buffer, y, color)
        .into_iter()
        .map(|x| buffer.rows[y][x].symbol.as_str())
        .collect()
}

fn content_width(app: &App, frame_width: usize) -> usize {
    (frame_width - 2 - sbs_overhead(app.ctx.lineno_width) as usize) / 2
}

fn divider_x(app: &App, frame_width: usize) -> usize {
    let gutter = sbs_left_gutter(app.ctx.lineno_width) as usize;
    1 + gutter + content_width(app, frame_width) + 1
}

fn marked(buffer: &Buffer, app: &App, needle: &str) -> (String, String) {
    let row = row_containing(buffer, needle);
    (
        text_with_bg(buffer, row, app.ctx.theme.word_del_bg),
        text_with_bg(buffer, row, app.ctx.theme.word_add_bg),
    )
}

fn none_marked() -> (String, String) {
    (String::new(), String::new())
}

// Comments and remote threads.

fn comment(id: &str, texts: &[&str]) -> Comment {
    Comment {
        id: id.to_string(),
        side: None,
        line_range: None,
        is_visible: true,
        rows: texts.len(),
        lines: texts.iter().map(|t| text_line(t)).collect(),
    }
}

fn sample_diff_file() -> DiffFile {
    file_of(vec![hunk(
        "@@ -1,1 +1,2 @@",
        vec![
            diff_line(LineOrigin::Context, "first", Some(1), Some(1)),
            diff_line(LineOrigin::Addition, "second", None, Some(2)),
        ],
        1,
        2,
    )])
}

fn thread() -> RemoteReviewThread {
    RemoteReviewThread {
        path: "src/lib.rs".to_string(),
        line: Some(2),
        side: RemoteCommentSide::Right,
        is_shown: true,
        lines: vec![text_line("[github @alice]"), text_line("sbs hello")],
    }
}

#[test]
fn should_cull_comment_boxes_outside_the_viewport() {
    const NEEDLE: &str = "far-below-the-fold";
    let lines: Vec<DiffLine> = (1..=120)
        .map(|n| diff_line(LineOrigin::Addition, &format!("line {n}"), None, Some(n)))
        .collect();
    let mut file = file_of(vec![hunk("@@ -0,0 +1,120 @@", lines, 1, 120)]);
    file.line_comments
        .insert(100, vec![comment("far", &[NEEDLE])]);
    let mut app = app_with(vec![file]);

    let body = body_text(&draw_sbs(&mut app, 160, 30));
    assert!(
        !body.contains(NEEDLE),
        "off-screen comment should not be visible:\n{body}"
    );

    let comment_row = app.rows().comment_bars[0].row;
    app.scroll_offset = comment_row;
    app.ctx.current_line_idx = comment_row;

    let body = body_text(&draw_sbs(&mut app, 160, 30));
    assert!(
        body.contains(NEEDLE),
        "comment scrolled into view should render at its annotated row:\n{body}"
    );
}

#[test]
fn should_render_remote_comment_inline_in_side_by_side_diff() {
    let mut app = app_with(vec![sample_diff_file()]);
    app.ctx.remote_threads = vec![thread()];
    let body = body_text(&draw_sbs(&mut app, 160, 30));
    assert!(
        body.contains("[github @alice]"),
        "expected badge in side-by-side render:\n{body}"
    );
}

#[test]
fn should_hide_remote_comments_under_comments_hide_in_side_by_side() {
    let mut app = app_with(vec![sample_diff_file()]);
    app.ctx.remote_threads = vec![thread()];
    app.ctx.hides_remote_comments = true;
    let body = body_text(&draw_sbs(&mut app, 160, 30));
    assert!(
        !body.contains("[github @alice"),
        "remote comment leaked under Hide:\n{body}"
    );
}

fn diff_file_with_pair(left: &str, right: &str) -> DiffFile {
    file_of(vec![hunk(
        "@@ -1,1 +1,1 @@",
        vec![
            diff_line(LineOrigin::Deletion, left, Some(1), None),
            diff_line(LineOrigin::Addition, right, None, Some(1)),
        ],
        1,
        1,
    )])
}

fn diff_file_with_standalone_deletion(left: &str) -> DiffFile {
    file_of(vec![hunk(
        "@@ -1,1 +0,0 @@",
        vec![diff_line(LineOrigin::Deletion, left, Some(1), None)],
        0,
        0,
    )])
}

fn rows_with_l(buffer: &Buffer) -> Vec<usize> {
    (0..buffer.rows.len())
        .filter(|&y| row_text(buffer, y).contains("LLLLLLLLLL"))
        .collect()
}

#[test]
fn should_wrap_long_line_in_side_by_side_view_when_wrap_enabled() {
    let mut app = app_with(vec![diff_file_with_pair(&"L".repeat(200), "short")]);
    app.wrap = true;
    let buf = draw_sbs(&mut app, 160, 20);
    let rows = rows_with_l(&buf).len();
    assert!(
        rows >= 2,
        "expected long left content to span >=2 visual rows, got {rows}"
    );
}

#[test]
fn should_not_wrap_when_wrap_disabled_in_side_by_side() {
    let mut app = app_with(vec![diff_file_with_pair(&"L".repeat(200), "short")]);
    app.wrap = false;
    let buf = draw_sbs(&mut app, 160, 20);
    let rows = rows_with_l(&buf).len();
    assert_eq!(
        rows, 1,
        "wrap-off should produce exactly one row of L, got {rows}"
    );
}

#[test]
fn should_align_divider_on_wrapped_rows_in_side_by_side() {
    let mut app = app_with(vec![diff_file_with_pair(&"L".repeat(200), "short")]);
    app.wrap = true;

    let lw = 1usize;
    let inner_w = 158usize;
    let content_width = (inner_w - sbs_overhead(lw) as usize) / 2;
    let divider_x_inner = sbs_left_gutter(lw) as usize + content_width;
    let divider_glyph_x = 1 + divider_x_inner + 1;

    let buf = draw_sbs(&mut app, 160, 20);
    let rows = rows_with_l(&buf);
    assert!(
        rows.len() >= 2,
        "expected ≥2 wrapped rows, got {}",
        rows.len()
    );
    for y in rows {
        let glyph = &buf.rows[y][divider_glyph_x].symbol;
        assert_eq!(
            glyph, "│",
            "expected │ at col {divider_glyph_x} on row {y}, got {glyph:?}"
        );
    }
}

#[test]
fn should_pad_shorter_column_on_wrapped_rows_in_side_by_side() {
    let mut app = app_with(vec![diff_file_with_standalone_deletion(&"L".repeat(200))]);
    app.wrap = true;
    let buf = draw_sbs(&mut app, 160, 20);

    let lw = 1usize;
    let inner_w = 158usize;
    let content_width = (inner_w - sbs_overhead(lw) as usize) / 2;
    let divider_glyph_x = 1 + sbs_left_gutter(lw) as usize + content_width + 1;
    let right_content_start = divider_glyph_x + 2 + lw + 1 + 1;
    let right_content_end = right_content_start + content_width;

    let mut checked = 0;
    for y in rows_with_l(&buf) {
        checked += 1;
        let right: String = buf.rows[y][right_content_start..right_content_end]
            .iter()
            .map(|g| g.symbol.as_str())
            .collect();
        assert!(
            right.trim().is_empty(),
            "right column should be blank on wrapped L row {y}, got {right:?}"
        );
    }
    assert!(
        checked >= 2,
        "expected ≥2 wrapped rows to check, got {checked}"
    );
}

fn commit_message_file(message: &str) -> DiffFile {
    let lines: Vec<DiffLine> = message
        .lines()
        .enumerate()
        .map(|(i, line)| diff_line(LineOrigin::Context, line, None, Some(i as u32 + 1)))
        .collect();
    let count = lines.len() as u32;
    let mut file = file_of(vec![hunk("", lines, 1, count)]);
    file.path = "Commit Message (abc1234)".to_string();
    file.status = FileStatus::Added;
    file.is_commit_message = true;
    file
}

#[test]
fn should_render_commit_message_full_width_in_side_by_side() {
    let mut app = app_with(vec![commit_message_file("COMMITMSG summary line")]);
    let buf = draw_sbs(&mut app, 160, 20);

    let mut checked = 0;
    for y in 0..buf.rows.len() {
        let row = row_text(&buf, y);
        let Some(col) = row.find("COMMITMSG") else {
            continue;
        };
        checked += 1;
        assert!(
            col < 8,
            "commit message should start near the left edge, got col {col} on row {y}: {row:?}"
        );
        assert!(
            !row.contains(" │ "),
            "commit message row should not have a column divider on row {y}: {row:?}"
        );
    }
    assert_eq!(
        checked, 1,
        "expected the commit message body to render exactly once, got {checked}"
    );
}

#[test]
fn a_commit_message_row_is_indicator_indent_and_the_whole_text() {
    let message = "e\u{301} \u{1F44B}\u{1F3FB} done";
    let app = app_with(vec![commit_message_file(message)]);
    let out = app.rows();
    let Row::Full(line) = &out.rows[2] else {
        panic!("not a full row: {:?}", out.rows[2]);
    };
    let style = app.ctx.theme.diff_context_style;
    let spans: Vec<(&str, Style)> = line
        .spans
        .iter()
        .map(|s| (s.content.as_str(), s.style))
        .collect();
    assert_eq!(
        spans,
        vec![
            (" ", app.ctx.theme.current_line_indicator_style),
            ("  ", style),
            (message, style)
        ]
    );
}

// Word marks.

#[test]
fn should_mark_the_changed_token_in_both_columns_of_a_pair() {
    let mut app = pair_app("let x = foo;", "let x = bar;");
    let buffer = draw_sbs(&mut app, 60, 10);

    assert_eq!(
        marked(&buffer, &app, "let x = foo;"),
        ("foo".to_string(), "bar".to_string()),
        "{}",
        body_text(&buffer)
    );
    let row = row_containing(&buffer, "let x = foo;");
    let width = content_width(&app, 60);
    let lw = app.ctx.lineno_width;
    assert_eq!(
        row_text(&buffer, row).trim_matches('│'),
        format!(
            " {:>lw$} ▌{:width$} │ {:>lw$} ▌{:width$}",
            2, "let x = foo;", 2, "let x = bar;"
        )
    );
    assert_eq!(buffer.rows[row][divider_x(&app, 60)].symbol, "│");
    assert!(
        row_text(&buffer, row + 1)
            .trim_matches('│')
            .trim()
            .is_empty(),
        "{}",
        body_text(&buffer)
    );
    assert!(
        row_text(&buffer, 1).starts_with("│▶ ═══ src/lib.rs"),
        "cursor stays on the file header:\n{}",
        body_text(&buffer)
    );
}

#[test]
fn should_keep_the_cursor_row_as_before() {
    let mut app = pair_app("let x = foo;", "let x = bar;");
    app.wrap = false;
    let plain = draw_sbs(&mut app, 60, 10);
    let row = row_containing(&plain, "let x = foo;");
    app.ctx.current_line_idx = row - 1;
    let buffer = draw_sbs(&mut app, 60, 10);

    assert_eq!(row_containing(&buffer, "let x = foo;"), row);
    assert_eq!(
        row_text(&buffer, row),
        row_text(&plain, row).replacen(' ', "▶", 1),
        "{}",
        body_text(&buffer)
    );
    assert_eq!(marked(&buffer, &app, "let x = foo;"), none_marked());
}

#[test]
fn should_mark_the_same_characters_with_wrap_on_and_off() {
    let mut app = pair_app(
        "let total = compute_total(items);",
        "let total = compute_sum(items);",
    );
    app.wrap = false;
    let unwrapped = draw_sbs(&mut app, 120, 10);
    app.wrap = true;
    let wrapped = draw_sbs(&mut app, 120, 10);

    let expected = ("compute_total".to_string(), "compute_sum".to_string());
    assert_eq!(marked(&unwrapped, &app, "let total"), expected);
    assert_eq!(marked(&wrapped, &app, "let total"), expected);
    let row = row_containing(&unwrapped, "let total");
    assert_eq!(
        cells_with_bg(&unwrapped, row, app.ctx.theme.word_add_bg),
        cells_with_bg(&wrapped, row, app.ctx.theme.word_add_bg)
    );
}

#[test]
fn should_pair_an_uneven_block_by_position_and_leave_the_padded_tail_plain() {
    let mut app = app_with(vec![change_block_file(
        "context",
        &["a = 1;", "b = 2;"],
        &["a = 10;", "b = 20;", "c = 30;"],
    )]);
    let buffer = draw_sbs(&mut app, 60, 10);

    assert_eq!(
        marked(&buffer, &app, "a = 1;"),
        ("1".to_string(), "10".to_string()),
        "{}",
        body_text(&buffer)
    );
    assert_eq!(
        marked(&buffer, &app, "b = 2;"),
        ("2".to_string(), "20".to_string())
    );
    assert_eq!(marked(&buffer, &app, "c = 30;"), none_marked());
}

#[test]
fn should_leave_every_pair_plain_when_word_diff_is_off() {
    let mut app = pair_app("let x = foo;", "let x = bar;");
    app.ctx.word_diff = false;
    let buffer = draw_sbs(&mut app, 60, 10);
    assert_eq!(
        marked(&buffer, &app, "let x = foo;"),
        none_marked(),
        "{}",
        body_text(&buffer)
    );

    app.ctx.word_diff = true;
    let buffer = draw_sbs(&mut app, 60, 10);
    assert_eq!(
        marked(&buffer, &app, "let x = foo;"),
        ("foo".to_string(), "bar".to_string()),
        "{}",
        body_text(&buffer)
    );
}

#[test]
fn should_truncate_the_mark_with_the_text_at_the_column_edge() {
    let head = "abcdefghijklmnopqrstuvwxyz01234567";
    let token = |prefix: &str| format!("{prefix}{}", "b".repeat(36));
    let mut app = pair_app(
        &format!("{head} {}", token("old_")),
        &format!("{head} {}", token("new_")),
    );
    app.wrap = false;
    let buffer = draw_sbs(&mut app, 100, 10);

    let shown = content_width(&app, 100) - 3 - head.len() - 1;
    let row = row_containing(&buffer, head);
    assert_eq!(
        marked(&buffer, &app, head),
        (
            token("old_")[..shown].to_string(),
            token("new_")[..shown].to_string()
        ),
        "{}",
        body_text(&buffer)
    );
    assert_eq!(row_text(&buffer, row).matches("...").count(), 2);
    assert_eq!(buffer.rows[row][divider_x(&app, 100)].symbol, "│");
}

#[test]
fn should_move_the_mark_with_horizontal_scroll() {
    let mut app = pair_app("let x = foo;", "let x = bar;");
    app.wrap = false;
    let unscrolled = draw_sbs(&mut app, 50, 10);
    app.scroll_x = 3;
    let scrolled = draw_sbs(&mut app, 50, 10);
    assert_eq!(app.scroll_x, 3, "the file header allows the scroll");

    let row = row_containing(&unscrolled, "let x = foo;");
    for bg in [app.ctx.theme.word_del_bg, app.ctx.theme.word_add_bg] {
        let before = cells_with_bg(&unscrolled, row, bg);
        let after = cells_with_bg(&scrolled, row, bg);
        assert_eq!(before.len(), 3, "{}", body_text(&unscrolled));
        assert_eq!(
            after,
            before.iter().map(|x| x - 3).collect::<Vec<_>>(),
            "{}",
            body_text(&scrolled)
        );
    }
    assert_eq!(
        marked(&scrolled, &app, "x = foo;"),
        ("foo".to_string(), "bar".to_string())
    );
}

#[test]
fn should_keep_the_mark_on_both_visual_rows_of_a_wrapped_column() {
    let head = "a".repeat(100);
    let token = |prefix: &str| format!("{prefix}{}", "b".repeat(90));
    let mut app = pair_app(
        &format!("{head} {}", token("old_")),
        &format!("{head} {}", token("new_")),
    );
    app.wrap = true;
    let buffer = draw_sbs(&mut app, 160, 12);

    let first = row_containing(&buffer, "aaaaaaaaaa");
    let rows_marked = |bg: Color| -> (usize, String) {
        let rows: Vec<String> = (first..buffer.rows.len())
            .map(|y| text_with_bg(&buffer, y, bg))
            .filter(|text| !text.is_empty())
            .collect();
        (rows.len(), rows.concat())
    };
    assert_eq!(
        rows_marked(app.ctx.theme.word_del_bg),
        (2, token("old_")),
        "{}",
        body_text(&buffer)
    );
    assert_eq!(rows_marked(app.ctx.theme.word_add_bg), (2, token("new_")));
}

/// Find every match of `needle` on every line, and paint them on every row.
fn search(app: &mut App, needle: &str) {
    for file in &mut app.doc.files {
        for hunk in &mut file.hunks {
            for line in &mut hunk.lines {
                line.search_matches = line
                    .content
                    .match_indices(needle)
                    .map(|(at, text)| at..at + text.len())
                    .collect();
            }
        }
    }
    app.ctx.search_rows = (0..100).collect();
}

#[test]
fn should_show_a_search_match_inside_a_changed_token_in_the_search_background() {
    let mut app = app_with(vec![change_block_file(
        "bar context",
        &["let x = foobar;"],
        &["let x = bazbar;"],
    )]);
    search(&mut app, "bar");
    let buffer = draw_sbs(&mut app, 80, 10);

    let row = row_containing(&buffer, "let x = foobar;");
    assert_eq!(
        text_with_bg(&buffer, row, Color::Yellow),
        "barbar",
        "{}",
        body_text(&buffer)
    );
    assert_eq!(
        marked(&buffer, &app, "let x = foobar;"),
        ("foo".to_string(), "baz".to_string())
    );
}

#[test]
fn should_mark_wide_characters_and_keep_the_divider_aligned() {
    let mut app = pair_app("name = 値;", "name = 値段;");
    app.wrap = false;
    let buffer = draw_sbs(&mut app, 60, 10);

    assert_eq!(
        marked(&buffer, &app, "name = "),
        ("値".to_string(), "値段".to_string()),
        "{}",
        body_text(&buffer)
    );
    let row = row_containing(&buffer, "name = ");
    assert_eq!(buffer.rows[row][divider_x(&app, 60)].symbol, "│");
}

#[test]
fn should_mark_a_syntax_highlighted_line_and_keep_its_foreground() {
    let mut file = change_block_file("context", &["let x = foo;"], &["let x = bar;"]);
    let theme = dark();
    let syntax = |bg: Color, tail: &str| {
        Some(vec![
            (
                Style::default().fg(Color::Yellow).bg(bg),
                "let ".to_string(),
            ),
            (Style::default().fg(Color::Blue).bg(bg), tail.to_string()),
        ])
    };
    file.hunks[0].lines[1].highlighted_spans = syntax(theme.syntax_del_bg, "x = foo;");
    file.hunks[0].lines[2].highlighted_spans = syntax(theme.syntax_add_bg, "x = bar;");
    let mut app = app_with(vec![file]);
    let buffer = draw_sbs(&mut app, 60, 10);

    let row = row_containing(&buffer, "let x = foo;");
    assert_eq!(
        text_with_bg(&buffer, row, theme.syntax_word_del_bg),
        "foo",
        "{}",
        body_text(&buffer)
    );
    assert_eq!(text_with_bg(&buffer, row, theme.syntax_word_add_bg), "bar");
    let marked_fg: Vec<Option<Color>> = cells_with_bg(&buffer, row, theme.syntax_word_add_bg)
        .into_iter()
        .map(|x| buffer.rows[row][x].style.fg)
        .collect();
    assert_eq!(marked_fg, vec![Some(Color::Blue); 3]);
}

// Rows and what is anchored to them.

fn full_text(row: &Row) -> String {
    match row {
        Row::Full(line) => line.spans.iter().map(|s| s.content.as_str()).collect(),
        _ => panic!("not a full row: {row:?}"),
    }
}

fn joined(spans: &[Span]) -> String {
    spans.iter().map(|s| s.content.as_str()).collect()
}

fn columns(row: &Row) -> &ColumnsRow {
    match row {
        Row::Columns(columns) => columns,
        _ => panic!("not a row of columns: {row:?}"),
    }
}

fn stub(row: &Row) -> (GapStub, usize, bool) {
    match row {
        Row::Gap {
            stub,
            remaining,
            on_cursor,
        } => (*stub, *remaining, *on_cursor),
        _ => panic!("not a stub: {row:?}"),
    }
}

#[test]
fn context_stands_in_both_columns_with_both_numbers() {
    let mut file = sample_diff_file();
    file.hunks[0].lines[0].old_lineno = Some(7);
    let mut app = app_with(vec![file]);
    app.ctx.lineno_width = 3;
    let out = app.rows();
    let row = columns(&out.rows[2]);
    assert_eq!(joined(&row.meta.left_prefix), "   7  ");
    assert_eq!(joined(&row.meta.right_prefix), " │   1  ");
    assert_eq!(joined(&row.meta.left_content), "first");
    assert_eq!(joined(&row.meta.right_content), "first");
    assert_eq!(row.meta.left_pad_style, app.ctx.theme.diff_context_style);
}

#[test]
fn numbers_wider_than_their_column_are_shown_whole() {
    let mut file = sample_diff_file();
    file.hunks[0].lines[0].old_lineno = Some(4_294_967_295);
    file.hunks[0].lines[0].new_lineno = Some(100);
    let app = app_with(vec![file]);
    let out = app.rows();
    let row = columns(&out.rows[2]);
    assert_eq!(joined(&row.meta.left_prefix), " 4294967295  ");
    assert_eq!(joined(&row.meta.right_prefix), " │ 100  ");
}

#[test]
fn relative_numbers_count_from_the_cursor() {
    let mut app = app_with(vec![sample_diff_file()]);
    app.ctx.relative_line_numbers = true;
    app.ctx.current_line_idx = 3;
    let out = app.rows();
    assert_eq!(joined(&columns(&out.rows[2]).meta.left_prefix), " 1  ");
    let change = columns(&out.rows[3]);
    assert_eq!(joined(&change.meta.left_prefix), "▶   ");
    assert_eq!(joined(&change.meta.right_prefix), " │ 0 ▌");
}

#[test]
fn the_unpaired_side_is_blank_and_unstyled() {
    let app = app_with(vec![diff_file_with_standalone_deletion("gone")]);
    let out = app.rows();
    let row = columns(&out.rows[2]);
    assert_eq!(joined(&row.left_cell), "gone");
    assert!(row.right_cell.is_empty());
    assert_eq!(row.meta.right_pad_style, Style::default());
    assert_eq!(row.meta.left_pad_style, app.ctx.theme.diff_del_style);
    assert_eq!(joined(&row.meta.left_prefix), " 1 ▌");
    assert_eq!(joined(&row.meta.right_prefix), " │    ");
}

#[test]
fn a_highlighted_change_is_padded_in_the_syntax_background() {
    let mut file = diff_file_with_pair("old", "new");
    file.hunks[0].lines[0].highlighted_spans = Some(vec![(Style::default(), "old".to_string())]);
    file.hunks[0].lines[1].highlighted_spans = Some(vec![(Style::default(), "new".to_string())]);
    let app = app_with(vec![file]);
    let out = app.rows();
    let meta = &columns(&out.rows[2]).meta;
    assert_eq!(
        meta.left_pad_style,
        Style::default().fg(Color::Red).bg(Color::Indexed(53))
    );
    assert_eq!(
        meta.right_pad_style,
        Style::default().fg(Color::Green).bg(Color::Indexed(23))
    );
}

#[test]
fn both_ways_to_show_a_row_show_the_same_text() {
    let mut app = app_with(vec![change_block_file(
        "bar context",
        &["let x = foobar;"],
        &["let x = bazbar;", "more bar"],
    )]);
    search(&mut app, "bar");
    let out = app.rows();
    let flat = |spans: &[Span]| -> Vec<(char, Style)> {
        spans
            .iter()
            .flat_map(|s| s.content.chars().map(|ch| (ch, s.style)).collect::<Vec<_>>())
            .collect()
    };
    let mut compared = 0;
    for row in &out.rows {
        if let Row::Columns(row) = row {
            assert_eq!(flat(&row.left_cell), flat(&row.meta.left_content));
            assert_eq!(flat(&row.right_cell), flat(&row.meta.right_content));
            compared += 1;
        }
    }
    assert_eq!(compared, 3);
}

#[test]
fn rows_in_the_viewport_do_not_depend_on_it() {
    let mut file = change_block_file("context", &["a = 1;", "b = 2;"], &["a = 10;"]);
    file.file_comments.push(comment("f", &["one", "two"]));
    file.line_comments
        .insert(2, vec![comment("l", &["three", "four", "five"])]);
    let mut app = app_with(vec![file]);
    let whole = app.rows();
    for start in 0..whole.rows.len() {
        for end in start..=whole.rows.len() {
            app.ctx.visible_start = start;
            app.ctx.visible_end = end;
            let part = app.rows();
            assert_eq!(part.rows.len(), whole.rows.len());
            assert_eq!(part.comment_bars, whole.comment_bars);
            for i in start..end {
                assert_eq!(
                    format!("{:?}", part.rows[i]),
                    format!("{:?}", whole.rows[i])
                );
            }
        }
    }
}

#[test]
fn a_comment_box_partly_on_screen_is_built_and_one_above_is_blank() {
    let mut file = sample_diff_file();
    file.line_comments
        .insert(1, vec![comment("l", &["three", "four", "five"])]);
    let mut app = app_with(vec![file]);
    let top = app.rows().comment_bars[0].row;
    assert_eq!(top, 3);
    app.ctx.visible_start = top + 2;
    app.ctx.visible_end = top + 3;
    let out = app.rows();
    assert_eq!(full_text(&out.rows[top]), " three");
    assert_eq!(full_text(&out.rows[top + 2]), " five");
    app.ctx.visible_start = top + 3;
    app.ctx.visible_end = top + 4;
    let out = app.rows();
    assert_eq!(full_text(&out.rows[top]), "");
    assert_eq!(full_text(&out.rows[top + 2]), "");
    assert_eq!(
        out.comment_bars,
        vec![CommentBarAnchor {
            row: 3,
            line_range: LineRange { start: 1, end: 1 }
        }]
    );
}

#[test]
fn comments_stand_below_their_side_and_invisible_ones_nowhere() {
    let mut file = diff_file_with_pair("old", "new");
    let mut left = comment("a", &["left"]);
    left.side = Some(LineSide::Old);
    let mut right = comment("b", &["right"]);
    right.side = Some(LineSide::New);
    right.line_range = Some(LineRange { start: 1, end: 4 });
    let mut hidden = comment("c", &["hidden"]);
    hidden.is_visible = false;
    file.line_comments
        .insert(1, vec![right, hidden, left, comment("d", &["neither"])]);
    let app = app_with(vec![file]);
    let out = app.rows();
    assert_eq!(full_text(&out.rows[3]), " left");
    assert_eq!(full_text(&out.rows[4]), " right");
    assert_eq!(full_text(&out.rows[5]), " neither");
    let bars: Vec<(usize, Range<u32>)> = out
        .comment_bars
        .iter()
        .map(|b| (b.row, b.line_range.start..b.line_range.end))
        .collect();
    assert_eq!(bars, vec![(3, 1..1), (4, 1..4), (5, 1..1)]);
}

#[test]
fn threads_need_their_path_line_and_side() {
    let mut app = app_with(vec![sample_diff_file()]);
    let mut elsewhere = thread();
    elsewhere.path = "src/main.rs".to_string();
    let mut other_line = thread();
    other_line.line = Some(9);
    let mut other_side = thread();
    other_side.side = RemoteCommentSide::Left;
    let mut unseen = thread();
    unseen.is_shown = false;
    app.ctx.remote_threads = vec![elsewhere, other_line, other_side, unseen];
    let without = app.rows();
    app.ctx.remote_threads = Vec::new();
    assert_eq!(
        format!("{:?}", without),
        format!("{:?}", app.rows()),
        "no thread is anchored here"
    );
    app.ctx.remote_threads = vec![thread()];
    let with = app.rows();
    assert_eq!(with.rows.len(), without.rows.len() + 2);
    assert_eq!(full_text(&with.rows[4]), " [github @alice]");
    assert_eq!(
        with.comment_bars,
        vec![CommentBarAnchor {
            row: 4,
            line_range: LineRange { start: 2, end: 2 }
        }]
    );
    app.ctx.hides_remote_comments = true;
    assert_eq!(format!("{:?}", app.rows()), format!("{:?}", without));
}

#[test]
fn general_threads_stand_over_the_files() {
    let mut app = app_with(vec![sample_diff_file()]);
    let mut general = thread();
    general.line = None;
    app.ctx.remote_threads = vec![general];
    let out = app.rows();
    assert_eq!(full_text(&out.rows[0]), "▶[github @alice]");
    assert_eq!(full_text(&out.rows[1]), " sbs hello");
    assert!(out.comment_bars.is_empty());
}

fn input(texts: &[&str], line_offset: usize, column: u16) -> CommentInput {
    CommentInput {
        lines: texts.iter().map(|t| text_line(t)).collect(),
        line_offset,
        column,
    }
}

#[test]
fn a_new_line_comment_is_written_below_its_line() {
    let mut app = app_with(vec![sample_diff_file()]);
    app.ctx.input_mode = InputMode::Comment;
    app.ctx.comment_line = Some((2, LineSide::New));
    app.ctx.comment_line_range = Some(LineRange { start: 1, end: 2 });
    app.ctx.comment_input = input(&["top", "text", "bottom"], 1, 6);
    let out = app.rows();
    assert_eq!(full_text(&out.rows[4]), " top");
    assert_eq!(full_text(&out.rows[6]), " bottom");
    assert_eq!(
        out.input,
        Some(InputPlacement {
            cursor_line: 5,
            cursor_column: 7,
            box_start: 4,
            box_end: 6,
            annotation_len: 3,
            annotations_replaced: 0,
        })
    );
    assert_eq!(
        out.comment_bars,
        vec![CommentBarAnchor {
            row: 4,
            line_range: LineRange { start: 1, end: 2 }
        }]
    );
    app.ctx.current_file_idx = 1;
    assert_eq!(app.rows().input, None, "another file is current");
    app.ctx.current_file_idx = 0;
    app.ctx.comment_line = Some((2, LineSide::Old));
    assert_eq!(app.rows().input, None, "the other side has no such line");
}

#[test]
fn an_input_that_is_not_shown_may_have_its_cursor_anywhere() {
    let mut app = app_with(vec![sample_diff_file()]);
    app.ctx.comment_line = Some((2, LineSide::New));
    let without = app.rows().rows.len();
    app.ctx.comment_input = input(&["text"], 9, u16::MAX);
    assert!(app.ctx.is_wf());
    let out = app.rows();
    assert_eq!(out.rows.len(), without);
    assert_eq!(out.input, None);
    app.ctx.input_mode = InputMode::Comment;
    assert!(!app.ctx.is_wf());
}

#[test]
fn an_edited_line_comment_gives_its_place_to_the_input() {
    let mut file = sample_diff_file();
    file.line_comments
        .insert(2, vec![comment("x", &["kept"]), comment("y", &["a", "b"])]);
    let mut app = app_with(vec![file]);
    app.ctx.input_mode = InputMode::Comment;
    app.ctx.comment_line = Some((2, LineSide::New));
    app.ctx.editing_comment_id = Some("y".to_string());
    app.ctx.comment_input = input(&["editing"], 0, 0);
    let out = app.rows();
    assert_eq!(full_text(&out.rows[4]), " kept");
    assert_eq!(full_text(&out.rows[5]), " editing");
    assert_eq!(
        out.input,
        Some(InputPlacement {
            cursor_line: 5,
            cursor_column: 1,
            box_start: 5,
            box_end: 5,
            annotation_len: 1,
            annotations_replaced: 2,
        })
    );
}

#[test]
fn an_input_without_lines_stands_for_one_row_at_a_line_and_for_none_elsewhere() {
    let mut app = app_with(vec![sample_diff_file()]);
    app.ctx.input_mode = InputMode::Comment;
    app.ctx.comment_line = Some((2, LineSide::New));
    let placement = app.rows().input.expect("placed");
    assert_eq!((placement.box_start, placement.box_end), (4, 4));
    assert_eq!(placement.annotation_len, 1);
    app.ctx.comment_is_file_level = true;
    let placement = app.rows().input.expect("placed");
    assert_eq!((placement.box_start, placement.box_end), (1, 1));
    assert_eq!(placement.annotation_len, 0);
}

#[test]
fn file_comments_stand_below_the_header_without_bars() {
    let mut file = sample_diff_file();
    let mut hidden = comment("h", &["hidden"]);
    hidden.is_visible = false;
    file.file_comments = vec![comment("f", &["about the file"]), hidden];
    let mut app = app_with(vec![file]);
    let out = app.rows();
    assert_eq!(full_text(&out.rows[1]), " about the file");
    assert!(full_text(&out.rows[2]).starts_with("  @@"));
    assert!(out.comment_bars.is_empty());

    app.ctx.input_mode = InputMode::Comment;
    app.ctx.comment_is_file_level = true;
    app.ctx.editing_comment_id = Some("f".to_string());
    app.ctx.comment_input = input(&["one", "two"], 1, 3);
    let out = app.rows();
    assert_eq!(full_text(&out.rows[2]), " two");
    assert_eq!(
        out.input,
        Some(InputPlacement {
            cursor_line: 2,
            cursor_column: 4,
            box_start: 1,
            box_end: 2,
            annotation_len: 2,
            annotations_replaced: 1,
        })
    );
}

#[test]
fn the_review_section_stands_over_the_files_in_order() {
    let mut app = app_with(vec![sample_diff_file()]);
    app.doc.pr_info = vec![text_line("pull request")];
    app.doc.shows_review_comments_header = true;
    app.doc.review_summaries = vec![ReviewSummary {
        lines: vec![text_line("summary")],
    }];
    let mut invisible = comment("r", &["review comment"]);
    invisible.is_visible = false;
    app.doc.review_comments = vec![invisible];
    app.doc.issue_comments = vec![text_line("discussion")];
    app.ctx.input_mode = InputMode::Comment;
    app.ctx.comment_is_review_level = true;
    app.ctx.comment_input = input(&["new"], 0, 0);
    let out = app.rows();
    let texts: Vec<String> = out.rows[..7].iter().map(full_text).collect();
    assert_eq!(texts[0], "pull request");
    assert!(texts[1].starts_with("  ═══ Review Comments ═══"));
    assert_eq!(texts[2], " summary");
    assert_eq!(texts[3], " review comment");
    assert_eq!(texts[4], " new");
    assert_eq!(texts[5], "discussion");
    assert!(texts[6].starts_with("  ═══ src/lib.rs"));
    assert_eq!(out.input.expect("placed").box_start, 4);
}

#[test]
fn an_edited_review_comment_gives_its_place_to_the_input() {
    let mut app = app_with(Vec::new());
    app.doc.review_comments = vec![comment("r", &["a", "b", "c"])];
    app.ctx.editing_comment_id = Some("r".to_string());
    app.ctx.comment_input = input(&["x", "y"], 0, 0);
    assert_eq!(app.rows().input, None, "no comment is being written");
    app.ctx.input_mode = InputMode::Comment;
    app.ctx.comment_is_review_level = true;
    let out = app.rows();
    assert_eq!(out.rows.len(), 2);
    assert_eq!(out.input.expect("placed").annotations_replaced, 3);
}

#[test]
fn folded_filtered_and_other_files_have_no_body() {
    let mut folded = sample_diff_file();
    folded.is_collapsed = true;
    let mut filtered = sample_diff_file();
    filtered.passes_filter = false;
    let mut app = app_with(vec![folded, filtered, sample_diff_file()]);
    let out = app.rows();
    assert_eq!(out.rows.len(), 1 + 5);
    assert_eq!(full_text(&out.rows[5]), " ");
    app.ctx.is_single_file_view = true;
    app.ctx.current_file_idx = 2;
    let out = app.rows();
    assert_eq!(out.rows.len(), 4, "no header in single-file view");
    assert!(full_text(&out.rows[0]).starts_with("▶ @@"));
}

#[test]
fn a_reviewed_file_has_its_banner_in_single_file_view_alone() {
    let mut file = sample_diff_file();
    file.is_reviewed = true;
    let mut app = app_with(vec![file]);
    assert_eq!(app.rows().rows.len(), 5);
    app.ctx.is_single_file_view = true;
    let out = app.rows();
    assert_eq!(out.rows.len(), 5);
    assert_eq!(full_text(&out.rows[0]), "▶reviewed");
    match &out.rows[0] {
        Row::Full(line) => assert_eq!(
            line.spans[1].style,
            Style {
                fg: Some(Color::LightBlue),
                bg: None,
                add_modifier: DIM,
                sub_modifier: 0
            }
        ),
        _ => unreachable!(),
    }
}

#[test]
fn a_bare_file_shows_its_label() {
    for kind in 0..3 {
        let mut file = sample_diff_file();
        match kind {
            0 => file.is_binary = true,
            1 => file.is_too_large = true,
            _ => file.hunks.clear(),
        }
        let out = app_with(vec![file]).rows();
        assert_eq!(out.rows.len(), 3);
        assert_eq!(full_text(&out.rows[1]), "  (binary file)");
    }
}

#[test]
fn a_folded_hunk_is_its_header() {
    let mut file = sample_diff_file();
    file.hunks[0].is_collapsed = true;
    let out = app_with(vec![file]).rows();
    assert_eq!(out.rows.len(), 3);
    assert_eq!(full_text(&out.rows[1]), "  @@ -1,1 +1,2 @@");
}

fn stubs_of(gap: u32, is_first: bool) -> Vec<(GapStub, usize, bool)> {
    let mut file = sample_diff_file();
    if is_first {
        file.hunks[0].gap_before = gap;
    } else {
        let mut second = sample_diff_file().hunks.remove(0);
        second.gap_before = gap;
        file.hunks.push(second);
    }
    app_with(vec![file])
        .rows()
        .rows
        .iter()
        .filter(|row| matches!(row, Row::Gap { .. }))
        .map(stub)
        .collect()
}

#[test]
fn stubs_above_a_hunk_depend_on_the_gap() {
    let up = GapStub::Expander(ExpandDirection::Up);
    let down = GapStub::Expander(ExpandDirection::Down);
    let both = GapStub::Expander(ExpandDirection::Both);
    assert_eq!(stubs_of(0, true), vec![]);
    assert_eq!(stubs_of(20, true), vec![(up, 20, false)]);
    assert_eq!(
        stubs_of(21, true),
        vec![(GapStub::Hidden, 21, false), (up, 21, false)]
    );
    assert_eq!(stubs_of(19, false), vec![(both, 19, false)]);
    assert_eq!(
        stubs_of(20, false),
        vec![
            (down, 20, false),
            (GapStub::Hidden, 20, false),
            (up, 20, false)
        ]
    );
}

#[test]
fn expanded_lines_stand_around_the_stubs() {
    let mut file = sample_diff_file();
    file.hunks[0].gap_before = 5;
    file.hunks[0].expanded = ExpandedLines {
        top: vec![diff_line(LineOrigin::Context, "above", Some(1), Some(1))],
        bottom: vec![diff_line(LineOrigin::Context, "below", Some(5), Some(5))],
    };
    let mut app = app_with(vec![file]);
    app.ctx.current_line_idx = 2;
    let out = app.rows();
    assert_eq!(joined(&columns(&out.rows[1]).left_cell), "above");
    assert_eq!(
        columns(&out.rows[1]).meta.left_pad_style,
        app.ctx.theme.expanded_context_style
    );
    assert_eq!(
        stub(&out.rows[2]),
        (GapStub::Expander(ExpandDirection::Up), 3, true)
    );
    assert_eq!(joined(&columns(&out.rows[3]).right_cell), "below");
    app.ctx.visible_end = 1;
    assert_eq!(full_text(&app.rows().rows[1]), "", "outside the viewport");
}

#[test]
fn lines_after_the_last_hunk_are_counted_once_the_file_is() {
    let mut file = sample_diff_file();
    let count = |file: &DiffFile| {
        let mut copy = sample_diff_file();
        copy.line_count = file.line_count;
        copy.status = file.status;
        app_with(vec![copy])
            .rows()
            .rows
            .iter()
            .filter(|row| matches!(row, Row::Gap { .. }))
            .map(stub)
            .collect::<Vec<_>>()
    };
    let down = GapStub::Expander(ExpandDirection::Down);
    assert_eq!(count(&file), vec![]);
    file.line_count = Some(2);
    assert_eq!(count(&file), vec![]);
    file.line_count = Some(3);
    assert_eq!(count(&file), vec![(down, 1, false)]);
    file.line_count = Some(23);
    assert_eq!(
        count(&file),
        vec![(down, 21, false), (GapStub::Hidden, 21, false)]
    );
    file.status = FileStatus::Deleted;
    assert_eq!(count(&file), vec![]);
}

#[test]
fn expanded_lines_after_the_last_hunk_are_always_built() {
    let mut file = sample_diff_file();
    file.line_count = Some(4);
    file.expanded_end = ExpandedLines {
        top: vec![diff_line(LineOrigin::Context, "third", Some(3), Some(3))],
        bottom: vec![diff_line(LineOrigin::Context, "fourth", Some(4), Some(4))],
    };
    let mut app = app_with(vec![file]);
    app.ctx.visible_end = 0;
    let out = app.rows();
    assert_eq!(joined(&columns(&out.rows[4]).left_cell), "third");
    assert_eq!(joined(&columns(&out.rows[5]).left_cell), "fourth");
    app.ctx.shows_end_gaps = false;
    assert_eq!(app.rows().rows.len(), 5);
}

#[test]
fn a_search_paints_only_its_rows() {
    let mut app = pair_app("let x = foo;", "let x = bar;");
    search(&mut app, "context");
    app.ctx.search_rows = HashSet::new();
    let buffer = draw_sbs(&mut app, 60, 10);
    let row = row_containing(&buffer, "context");
    assert_eq!(text_with_bg(&buffer, row, Color::Yellow), "");
    app.ctx.search_rows.insert(row - 1);
    let buffer = draw_sbs(&mut app, 60, 10);
    assert_eq!(text_with_bg(&buffer, row, Color::Yellow), "contextcontext");
}

#[test]
fn the_indicator_marks_the_cursor_row_and_no_other() {
    let mut file = change_block_file("context", &["a = 1;"], &["a = 10;", "b = 2;"]);
    file.hunks[0].gap_before = 30;
    file.line_comments
        .insert(2, vec![comment("l", &["three", "four"])]);
    file.file_comments.push(comment("f", &["one"]));
    let mut app = app_with(vec![file]);
    let count = app.rows().rows.len();
    for cursor in 0..count {
        app.ctx.current_line_idx = cursor;
        for (i, row) in app.rows().rows.iter().enumerate() {
            let on_cursor = match row {
                Row::Full(_) => full_text(row).starts_with('▶'),
                Row::Columns(columns) => joined(&columns.meta.left_prefix).starts_with('▶'),
                Row::Gap { on_cursor, .. } => *on_cursor,
            };
            assert_eq!(on_cursor, i == cursor, "row {i}, cursor {cursor}");
        }
    }
}
