use std::time::Instant;

use ropey::Rope;
use text_buffer::buffer::{Buffer, Mode, ModifiedStatus};
use text_buffer::cursor::Cursor;
use text_buffer::draw::{Context, DrawCommand, DrawStyle, LinePainter, TextPainter, Trace};
use text_buffer::geometry::Rect;
use text_buffer::grapheme::Cluster;
use text_buffer::status::{spaced, status_bar_region, write_decimal};
use text_buffer::theme::{Colour, Style, SyntaxTheme, Theme};

fn style(number: u8) -> Style {
    let colour = Colour { red: number, green: number, blue: number };
    Style { background: colour, foreground: colour, bold: false, underline: false }
}

fn theme() -> Theme {
    Theme {
        syntax: SyntaxTheme {
            text: style(1),
            text_current_line: style(2),
            cursor_focused: style(3),
            cursor_unfocused: style(4),
        },
        border: style(5),
        status_base: style(6),
        status_frame_id_focused: style(7),
        status_frame_id_unfocused: style(8),
        status_is_modified: style(9),
        status_is_not_modified: style(10),
        status_file_name: style(11),
        status_file_size: style(12),
        status_position_in_file: style(13),
        status_mode: style(14),
    }
}

fn context(frame: Rect, focused: bool) -> Context {
    Context { frame, frame_id: 7, focused, theme: theme() }
}

fn painted(text: &str, start: usize, end: usize) -> Buffer {
    Buffer {
        mode: Mode { name: String::from("Text"), language: false },
        text: Rope::from_str(text),
        yanked_line: None,
        has_unsaved_changes: ModifiedStatus::Unchanged,
        file_path: Some(String::from("a.txt")),
        cursor: Cursor { range: start..end, visual_horizontal_offset: None, select: None },
        first_line: 0,
    }
}

fn nothing() -> Trace<u8> {
    Trace { start: 0, end: 0, scope: None, is_error: false }
}

fn syntax(
    char_index: usize,
    focused: bool,
    line_under_cursor: bool,
    scope: Option<u8>,
) -> DrawStyle<u8> {
    DrawStyle::Syntax { char_index, focused, line_under_cursor, scope, is_error: false }
}

fn text(x: usize, y: usize, style: DrawStyle<u8>, start: usize, end: usize) -> DrawCommand<u8> {
    DrawCommand::DrawText { x, y, style, start, end }
}

fn space(x: usize, y: usize, style: DrawStyle<u8>) -> DrawCommand<u8> {
    DrawCommand::DrawChar { x, y, style, character: ' ' }
}

#[test]
fn frame_is_replaced_in_a_context() {
    let inner = context(Rect::new(0, 0, 9, 9), true).set_frame(Rect::new(1, 2, 3, 4));
    assert_eq!(inner.frame, Rect::new(1, 2, 3, 4));
    assert_eq!(inner.frame_id, 7);
    assert!(inner.focused);
    assert_eq!(inner.theme, theme());
    assert_eq!(inner.frame.max_x(), 4);
}

#[test]
fn buffer_is_drawn() {
    let mut buffer = painted("ab\n\tc\n", 0, 1);
    let context = context(Rect::new(2, 1, 10, 4), true);
    let (commands, mut painter): (Vec<DrawCommand<u8>>, TextPainter<u8>) = buffer.draw(&context);
    let mark = |y: usize, character: char| DrawCommand::DrawChar {
        x: 2,
        y,
        style: DrawStyle::Fixed(style(5)),
        character,
    };
    assert_eq!(
        commands,
        vec![
            DrawCommand::ClearRegion { region: context.frame, fill: style(1) },
            mark(1, ' '),
            mark(2, ' '),
            mark(3, '~'),
        ]
    );
    assert_eq!(painter.frame, Rect::new(3, 1, 9, 3));
    assert_eq!(painter.rows, 3);
    let inner = context.set_frame(painter.frame);
    assert_eq!(buffer.draw_text(&inner, &mut painter, &nothing(), false), None);
    assert_eq!(
        painter.commands,
        vec![
            DrawCommand::ClearRegion { region: Rect::new(3, 1, 9, 1), fill: style(2) },
            text(3, 1, syntax(0, true, true, None), 0, 1),
            text(4, 1, syntax(1, true, true, None), 1, 2),
            space(5, 1, syntax(2, true, true, None)),
            space(3, 2, syntax(3, true, false, None)),
            space(4, 2, syntax(3, true, false, None)),
            space(5, 2, syntax(3, true, false, None)),
            space(6, 2, syntax(3, true, false, None)),
            text(7, 2, syntax(4, true, false, None), 4, 5),
            space(8, 2, syntax(5, true, false, None)),
        ]
    );
    assert_eq!(painter.visual_cursor_x, 0);
}

#[test]
fn column_of_the_cursor_is_found() {
    let context = context(Rect::new(3, 1, 9, 3), true);
    let mut buffer = painted("ab\n\tc\n", 4, 5);
    let mut painter: TextPainter<u8> = buffer.start_text(&context);
    assert_eq!(buffer.draw_text(&context, &mut painter, &nothing(), false), None);
    assert_eq!(painter.visual_cursor_x, 4);
}

#[test]
fn buffer_without_focus_is_drawn() {
    let context = context(Rect::new(0, 0, 9, 3), false);
    let mut buffer = painted("ab", 1, 2);
    let mut painter: TextPainter<u8> = buffer.start_text(&context);
    assert_eq!(buffer.draw_text(&context, &mut painter, &nothing(), false), None);
    assert_eq!(
        painter.commands,
        vec![
            text(0, 0, syntax(0, false, true, None), 0, 1),
            text(1, 0, syntax(1, false, true, None), 1, 2),
        ]
    );
    assert_eq!(painter.visual_cursor_x, 0);
}

#[test]
fn cursor_behind_the_text_is_drawn() {
    for (focused, cursor_style) in [(true, style(3)), (false, style(4))] {
        let context = context(Rect::new(0, 0, 9, 3), focused);
        let mut buffer = painted("a\n", 2, 2);
        let mut painter: TextPainter<u8> = buffer.start_text(&context);
        assert_eq!(buffer.draw_text(&context, &mut painter, &nothing(), false), None);
        assert_eq!(painter.commands.last(), Some(&space(0, 1, DrawStyle::Fixed(cursor_style))));
    }
}

#[test]
fn line_stops_at_the_edge() {
    let buffer = painted("abc\n", 3, 4);
    let frame = Rect::new(4, 2, 2, 1);
    let context = context(frame, true);
    let mut line: LinePainter<u8> = buffer.start_line(&context, 0, frame);
    assert_eq!(buffer.draw_line(&context, &mut line, &nothing(), false), None);
    assert!(line.finished);
    assert_eq!(line.drawn, 2);
    assert_eq!(line.commands.len(), 3);
    assert_eq!(line.commands[2], text(5, 2, syntax(1, true, true, None), 1, 2));
}

#[test]
fn cursor_on_another_line_has_no_column() {
    let frame = Rect::new(3, 0, 9, 1);
    let context = context(frame, true);
    let buffer = painted("ab\ncd\n", 3, 4);
    let mut line: LinePainter<u8> = buffer.start_line(&context, 0, frame);
    assert_eq!(buffer.draw_line(&context, &mut line, &nothing(), false), None);
    assert_eq!(line.visual_cursor_x, 0);
    let buffer = painted("ab\ncd\n", 4, 5);
    let mut line: LinePainter<u8> = buffer.start_line(&context, 1, frame);
    assert_eq!(buffer.draw_line(&context, &mut line, &nothing(), false), None);
    assert_eq!(line.visual_cursor_x, 1);
}

#[test]
fn wide_cluster_is_not_cut_in_two() {
    let buffer = painted("a\u{754c}b\n", 1, 2);
    let frame = Rect::new(0, 0, 2, 1);
    let context = context(frame, true);
    let mut line: LinePainter<u8> = buffer.start_line(&context, 0, frame);
    assert_eq!(buffer.draw_line(&context, &mut line, &nothing(), false), None);
    assert_eq!(line.drawn, 1);
    assert_eq!(line.visual_cursor_x, 1);
}

#[test]
fn given_clusters_are_drawn() {
    let buffer = painted("abcd", 0, 1);
    let frame = Rect::new(0, 0, 8, 1);
    let context = context(frame, false);
    let mut line: LinePainter<u8> = buffer.start_line(&context, 0, frame);
    line.clusters = vec![
        Cluster { length: 1, width: 2, is_tab: true },
        Cluster { length: 2, width: 3, is_tab: false },
        Cluster { length: 1, width: 0, is_tab: false },
    ];
    assert_eq!(buffer.draw_line(&context, &mut line, &nothing(), false), None);
    assert_eq!(
        line.commands,
        vec![
            space(0, 0, syntax(0, false, true, None)),
            space(1, 0, syntax(0, false, true, None)),
            text(2, 0, syntax(1, false, true, None), 1, 3),
            space(5, 0, syntax(3, false, true, None)),
        ]
    );
}

#[test]
fn syntax_is_asked_for_where_the_trace_ends() {
    let context = context(Rect::new(0, 0, 9, 3), false);
    let mut buffer = painted("\u{e9}b\n\tc\n", 4, 5);
    let mut painter: TextPainter<u8> = buffer.start_text(&context);
    assert_eq!(buffer.draw_text(&context, &mut painter, &nothing(), true), Some(0));
    let keyword = Trace { start: 0, end: 3, scope: Some(8), is_error: false };
    assert_eq!(buffer.draw_text(&context, &mut painter, &keyword, true), Some(3));
    let unsure = Trace { start: 0, end: 3, scope: None, is_error: false };
    assert_eq!(buffer.draw_text(&context, &mut painter, &unsure, true), Some(4));
    let rest = Trace { start: 4, end: 100, scope: Some(9), is_error: true };
    assert_eq!(buffer.draw_text(&context, &mut painter, &rest, true), None);
    assert_eq!(painter.commands[0], text(0, 0, syntax(0, false, false, Some(8)), 0, 1));
    assert_eq!(painter.commands[1], text(1, 0, syntax(1, false, false, Some(8)), 1, 2));
    assert_eq!(painter.commands[2], space(2, 0, syntax(2, false, false, None)));
    assert_eq!(
        painter.commands[7],
        text(
            4,
            1,
            DrawStyle::Syntax {
                char_index: 4,
                focused: false,
                line_under_cursor: true,
                scope: Some(9),
                is_error: true,
            },
            4,
            5,
        )
    );
    assert_eq!(buffer.draw_text(&context, &mut painter, &nothing(), true), None);
}

#[test]
fn nothing_is_drawn_outside_the_frame() {
    let frame = Rect::new(3, 2, 5, 2);
    let context = context(frame, true);
    let mut buffer = painted("abcdefgh\n\t\tx\nmore\n", 0, 1);
    let mut painter: TextPainter<u8> = buffer.start_text(&context);
    assert_eq!(buffer.draw_text(&context, &mut painter, &nothing(), false), None);
    for command in painter.commands {
        match command {
            DrawCommand::ClearRegion { region, .. } => {
                assert_eq!(region, Rect::new(3, 2, 5, 1));
            }
            DrawCommand::DrawChar { x, y, .. } | DrawCommand::DrawText { x, y, .. } => {
                assert!(3 <= x && x <= 8);
                assert!(2 <= y && y < 4);
            }
        }
    }
}

#[test]
fn drawing_scrolls_to_the_cursor() {
    let context = context(Rect::new(0, 0, 9, 3), true);
    let mut buffer = painted("0\n1\n2\n3\n4\n", 8, 9);
    let (marks, painter): (Vec<DrawCommand<u8>>, TextPainter<u8>) = buffer.draw(&context);
    assert_eq!(buffer.first_line, 3);
    assert_eq!(painter.first_line, 3);
    assert_eq!(painter.rows, 2);
    assert_eq!(marks.len(), 3);
}

#[test]
fn text_is_cut_out_by_bytes() {
    let buffer = painted("h\u{e9}llo", 0, 1);
    assert_eq!(buffer.text_of_bytes(0, 3), "h\u{e9}");
    assert_eq!(buffer.text_of_bytes(1, 3), "\u{e9}");
    assert_eq!(buffer.text_of_bytes(2, 3), "\u{e9}");
    assert_eq!(buffer.text_of_bytes(6, 6), "");
}

#[test]
fn numbers_are_written_in_decimal() {
    assert_eq!(write_decimal(0), "0");
    assert_eq!(write_decimal(9), "9");
    assert_eq!(write_decimal(10), "10");
    assert_eq!(write_decimal(1234567), "1234567");
    assert_eq!(write_decimal(usize::MAX), format!("{}", usize::MAX));
    assert_eq!(spaced("12"), " 12 ");
}

#[test]
fn status_bar_is_in_the_last_row() {
    let context = context(Rect::new(5, 2, 40, 24), true);
    assert_eq!(status_bar_region(&context), Rect::new(5, 25, 40, 1));
}

#[test]
fn status_bar_is_drawn_part_by_part() {
    let buffer = painted("ab\n\tc\n", 1, 2);
    let context = context(Rect::new(5, 2, 40, 24), true);
    let mut drawn = Vec::new();
    let mut parts = Vec::new();
    while let Some(segment) = buffer.draw_status_bar(&context, 4, &drawn) {
        drawn.push(segment.content.chars().count());
        parts.push((segment.x, segment.y, segment.style, segment.content));
    }
    assert_eq!(
        parts,
        vec![
            (5, 25, style(7), String::from(" 7 ")),
            (8, 25, style(10), String::from(" - ")),
            (11, 25, style(12), String::from(" 6 ")),
            (14, 25, style(11), String::from("a.txt ")),
            (20, 25, style(14), String::from(" Text")),
            (34, 25, style(13), String::from(" 0: 4  33% ")),
        ]
    );
}

#[test]
fn status_bar_shows_unsaved_changes() {
    let context = context(Rect::new(0, 0, 40, 24), false);
    for status in [ModifiedStatus::Changed, ModifiedStatus::Saving(Instant::now())] {
        let mut buffer = painted("ab\n", 1, 2);
        buffer.has_unsaved_changes = status;
        let segment = buffer.draw_status_bar(&context, 0, &vec![3]).unwrap();
        assert_eq!(segment.content, " \u{2632} ");
        assert_eq!(segment.style, style(9));
        assert_eq!(segment.x, 3);
        let segment = buffer.draw_status_bar(&context, 0, &vec![]).unwrap();
        assert_eq!(segment.style, style(8));
    }
}

#[test]
fn status_bar_shows_the_size_for_people() {
    let context = context(Rect::new(0, 0, 40, 24), false);
    for (bytes, size) in [
        (0, " 0 "),
        (1023, " 1023 "),
        (1024, " 1.0Ki "),
        (1536, " 1.5Ki "),
        (2047, " 1.9Ki "),
        (10 * 1024, " 10.0Ki "),
        (1024 * 1024 - 1, " 1023.9Ki "),
        (1024 * 1024, " 1.0Mi "),
        (3 * 1024 * 1024 / 2, " 1.5Mi "),
    ] {
        let buffer = painted(&"x".repeat(bytes), 0, 1);
        let segment = buffer.draw_status_bar(&context, 0, &vec![3, 3]).unwrap();
        assert_eq!(segment.content, size);
    }
}

#[test]
fn status_bar_without_a_file() {
    let context = context(Rect::new(0, 0, 40, 24), false);
    let mut buffer = painted("ab\n", 0, 1);
    buffer.file_path = None;
    let segment = buffer.draw_status_bar(&context, 0, &vec![3, 3, 3]).unwrap();
    assert_eq!(segment.content, "");
    assert_eq!(segment.x, 9);
}

#[test]
fn position_is_right_aligned() {
    let buffer = painted("a\nb", 2, 3);
    let wide = context(Rect::new(1, 0, 40, 2), false);
    let segment = buffer.draw_status_bar(&wide, 123, &vec![3, 3, 3, 6, 5]).unwrap();
    assert_eq!(segment.content, " 1:123 100% ");
    assert_eq!((segment.x, segment.y), (29, 1));
    let narrow = context(Rect::new(1, 0, 5, 2), false);
    let segment = buffer.draw_status_bar(&narrow, 0, &vec![3, 3, 3, 6, 5]).unwrap();
    assert_eq!(segment.content, " 1: 0 100% ");
    assert_eq!(segment.x, 1);
}
