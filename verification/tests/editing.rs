use std::time::Instant;

use ropey::Rope;
use text_buffer::buffer::{Buffer, FileState, Mode, ModifiedStatus, OpenError};
use text_buffer::cursor::{column_at_end, length_within, place_on_cluster, Cursor};
use text_buffer::diff::{InputEdit, OpaqueDiff, Point};
use text_buffer::event::{EventOutcome, DISABLE_TABS};
use text_buffer::geometry::Rect;
use text_buffer::grapheme::{
    grapheme_width, is_tab, measure_clusters, next_grapheme_boundary, prev_grapheme_boundary,
    Cluster, TAB_WIDTH,
};
use text_buffer::key::Key;
use text_buffer::save::strip_trailing_whitespace;
use text_buffer::task::BufferTask;

fn buffer_at(text: &str, start: usize, end: usize) -> Buffer {
    Buffer {
        mode: Mode { name: String::from("Text"), language: false },
        text: Rope::from_str(text),
        yanked_line: None,
        has_unsaved_changes: ModifiedStatus::Unchanged,
        file_path: Some(String::from("notes.txt")),
        cursor: Cursor { range: start..end, visual_horizontal_offset: None, select: None },
        first_line: 0,
    }
}

fn cursor_at(start: usize, end: usize) -> Cursor {
    Cursor { range: start..end, visual_horizontal_offset: None, select: None }
}

fn press(buffer: &mut Buffer, key: Key) -> EventOutcome {
    buffer.handle_event(key, &Rect::new(0, 0, 20, 5), Instant::now())
}

fn is_changed(buffer: &Buffer) -> bool {
    matches!(buffer.has_unsaved_changes, ModifiedStatus::Changed)
}

fn is_unchanged(buffer: &Buffer) -> bool {
    matches!(buffer.has_unsaved_changes, ModifiedStatus::Unchanged)
}

fn yanked(buffer: &Buffer) -> String {
    buffer.yanked_line.as_ref().unwrap().to_string()
}

// Clusters

#[test]
fn boundaries_lie_between_clusters() {
    let text = Rope::from_str("e\u{301}x");
    assert_eq!(next_grapheme_boundary(&text, 0), 2);
    assert_eq!(next_grapheme_boundary(&text, 1), 2);
    assert_eq!(next_grapheme_boundary(&text, 2), 3);
    assert_eq!(next_grapheme_boundary(&text, 3), 3);
    assert_eq!(prev_grapheme_boundary(&text, 0), 0);
    assert_eq!(prev_grapheme_boundary(&text, 2), 0);
    assert_eq!(prev_grapheme_boundary(&text, 3), 2);
}

#[test]
fn joined_emoji_are_one_cluster() {
    let text = Rope::from_str("a\u{1f468}\u{200d}\u{1f469}\u{200d}\u{1f467}b");
    assert_eq!(next_grapheme_boundary(&text, 1), 6);
    assert_eq!(prev_grapheme_boundary(&text, 6), 1);
    assert_eq!(prev_grapheme_boundary(&text, 7), 6);
}

#[test]
fn carriage_return_and_line_feed_are_one_cluster() {
    let text = Rope::from_str("a\r\nb");
    assert_eq!(next_grapheme_boundary(&text, 1), 3);
    assert_eq!(prev_grapheme_boundary(&text, 3), 1);
}

#[test]
fn boundaries_are_found_across_pieces_of_a_long_text() {
    let long = "x".repeat(5000) + "e\u{301}" + &"y".repeat(5000);
    let text = Rope::from_str(&long);
    assert_eq!(next_grapheme_boundary(&text, 5000), 5002);
    assert_eq!(prev_grapheme_boundary(&text, 5002), 5000);
    assert_eq!(prev_grapheme_boundary(&text, 10002), 10001);
}

#[test]
fn boundaries_before_and_behind_agree() {
    for sample in [
        "a\u{1f1f7}\u{1f1f8}\u{1f1ee}\u{1f1f4}\u{1f1f7}b",
        "\u{915}\u{94d}\u{937}\u{93f}\u{928}\u{94d}\u{926}\u{940}",
        "\u{1f468}\u{200d}\u{1f469}\u{200d}\u{1f467}\u{1f44d}\u{1f3fd}",
        "e\u{301}\u{301}\r\n\n\r\u{1100}\u{1161}\u{11a8}x",
        "\u{600}1\u{85}\u{301}z",
    ] {
        let text = Rope::from_str(sample);
        for index in 0..text.len_chars() {
            let end = next_grapheme_boundary(&text, index);
            let start = prev_grapheme_boundary(&text, end);
            assert!(start <= index && index < end);
            assert_eq!(next_grapheme_boundary(&text, start), end);
        }
        let last = prev_grapheme_boundary(&text, text.len_chars());
        assert_eq!(next_grapheme_boundary(&text, last), text.len_chars());
    }
}

#[test]
fn no_cluster_goes_on_behind_a_line_break() {
    for line_break in ["\n", "\u{b}", "\u{c}", "\r", "\u{85}", "\u{2028}", "\u{2029}", "\r\n"] {
        let text = Rope::from_str(&format!("a{}\u{301}\u{200d}x", line_break));
        let start = 1 + line_break.chars().count();
        assert_eq!(prev_grapheme_boundary(&text, start + 2), start);
        assert_eq!(next_grapheme_boundary(&text, 1), start);
    }
}

#[test]
fn widths_are_those_of_a_terminal() {
    assert_eq!(grapheme_width("a"), 1);
    assert_eq!(grapheme_width("\u{754c}"), 2);
    assert_eq!(grapheme_width("e\u{301}"), 1);
    assert_eq!(grapheme_width("\n"), 0);
    assert_eq!(grapheme_width("\t"), TAB_WIDTH);
    assert!(is_tab("\t"));
    assert!(!is_tab("\t\t"));
    assert!(!is_tab(" "));
    assert!(!is_tab(""));
}

#[test]
fn clusters_are_measured_in_order() {
    assert_eq!(
        measure_clusters("e\u{301}\t\u{754c}\n"),
        vec![
            Cluster { length: 2, width: 1, is_tab: false },
            Cluster { length: 1, width: 4, is_tab: true },
            Cluster { length: 1, width: 2, is_tab: false },
            Cluster { length: 1, width: 0, is_tab: false },
        ]
    );
    assert_eq!(measure_clusters(""), vec![]);
}

#[test]
fn columns_are_added_up() {
    let narrow = Cluster { length: 1, width: 1, is_tab: false };
    let wide = Cluster { length: 2, width: 2, is_tab: false };
    let huge = Cluster { length: 1, width: usize::MAX, is_tab: false };
    assert_eq!(column_at_end(&vec![narrow, wide, narrow]), 4);
    assert_eq!(column_at_end(&vec![]), 0);
    assert_eq!(column_at_end(&vec![narrow, huge, narrow]), usize::MAX);
    assert_eq!(length_within(&vec![narrow, wide, narrow], 0), 0);
    assert_eq!(length_within(&vec![narrow, wide, narrow], 1), 1);
    assert_eq!(length_within(&vec![narrow, wide, narrow], 2), 1);
    assert_eq!(length_within(&vec![narrow, wide, narrow], 3), 3);
    assert_eq!(length_within(&vec![narrow, wide, narrow], 9), 4);
}

#[test]
fn place_without_a_cluster_is_the_first_character() {
    assert_eq!(place_on_cluster(3, 5), 3..5);
    assert_eq!(place_on_cluster(3, 3), 0..1);
}

// Motions

#[test]
fn new_cursor_is_at_the_start() {
    assert_eq!(Cursor::new(), cursor_at(0, 1));
}

#[test]
fn motions_go_from_cluster_to_cluster() {
    let text = Rope::from_str("ae\u{301}b");
    let mut cursor = cursor_at(0, 1);
    cursor.move_right(&text);
    assert_eq!(cursor.range, 1..3);
    cursor.move_right(&text);
    assert_eq!(cursor.range, 3..4);
    cursor.move_right(&text);
    assert_eq!(cursor.range, 3..4);
    cursor.move_left(&text);
    assert_eq!(cursor.range, 1..3);
    cursor.move_left(&text);
    assert_eq!(cursor.range, 0..1);
    cursor.move_left(&text);
    assert_eq!(cursor.range, 0..1);
    cursor.move_right_n(&text, 2);
    assert_eq!(cursor.range, 3..4);
}

#[test]
fn motions_between_lines_keep_the_column() {
    let text = Rope::from_str("abcd\ne\nfghi\n");
    let mut cursor = cursor_at(3, 4);
    cursor.move_down(&text);
    assert_eq!(cursor.range, 6..7);
    assert_eq!(cursor.visual_horizontal_offset, Some(3));
    cursor.move_down(&text);
    assert_eq!(cursor.range, 10..11);
    cursor.move_down(&text);
    assert_eq!(cursor.range, 10..11);
    cursor.move_up(&text);
    assert_eq!(cursor.range, 6..7);
    cursor.move_up(&text);
    assert_eq!(cursor.range, 3..4);
    cursor.move_up(&text);
    assert_eq!(cursor.range, 3..4);
    cursor.move_left(&text);
    assert_eq!(cursor.visual_horizontal_offset, None);
}

#[test]
fn columns_count_wide_characters_and_tabs() {
    let text = Rope::from_str("\u{754c}x\nabcd\n");
    let mut cursor = cursor_at(1, 2);
    cursor.move_down(&text);
    assert_eq!(cursor.range, 5..6);
    assert_eq!(cursor.visual_horizontal_offset, Some(2));

    let text = Rope::from_str("\tx\nabcdefg\n");
    let mut cursor = cursor_at(1, 2);
    cursor.move_down(&text);
    assert_eq!(cursor.range, 7..8);
    assert_eq!(cursor.visual_horizontal_offset, Some(4));
}

#[test]
fn lines_have_a_start_and_an_end() {
    let text = Rope::from_str("ab\r\ncd");
    let mut cursor = cursor_at(0, 1);
    cursor.move_to_end_of_line(&text);
    assert_eq!(cursor.range, 2..4);
    cursor.move_to_end_of_line(&text);
    assert_eq!(cursor.range, 2..4);
    cursor.move_to_start_of_line(&text);
    assert_eq!(cursor.range, 0..1);
    let mut cursor = cursor_at(5, 6);
    cursor.move_to_end_of_line(&text);
    assert_eq!(cursor.range, 6..6);
    cursor.move_to_start_of_line(&text);
    assert_eq!(cursor.range, 4..5);
    cursor.move_to_start_of_line(&text);
    assert_eq!(cursor.range, 4..5);
}

#[test]
fn every_line_break_ends_a_line() {
    let text = Rope::from_str("a\u{b}b\u{c}c\u{85}d\u{2028}e\u{2029}f\rg\nh\r\ni");
    let mut cursor = cursor_at(0, 1);
    let mut starts = vec![cursor.range.start];
    for _ in 0..8 {
        cursor.move_down(&text);
        starts.push(cursor.range.start);
    }
    assert_eq!(starts, vec![0, 2, 4, 6, 8, 10, 12, 14, 17]);
}

#[test]
fn buffers_have_a_start_and_an_end() {
    let text = Rope::from_str("ab\ncd\n");
    let mut cursor = cursor_at(1, 2);
    cursor.move_to_end_of_buffer(&text);
    assert_eq!(cursor.range, 5..6);
    cursor.move_to_start_of_buffer(&text);
    assert_eq!(cursor.range, 0..1);
    let empty = Rope::new();
    cursor.move_to_end_of_buffer(&empty);
    assert_eq!(cursor.range, 0..0);
}

#[test]
fn motions_on_an_empty_text_stay() {
    let text = Rope::new();
    let mut cursor = Cursor::new();
    cursor.move_down(&text);
    cursor.move_up(&text);
    cursor.move_right(&text);
    cursor.move_left(&text);
    assert_eq!(cursor.range, 0..1);
}

#[test]
fn selection_is_between_mark_and_cursor() {
    let mut cursor = cursor_at(2, 3);
    assert_eq!(cursor.selection(), 2..3);
    cursor.select = Some(5);
    assert_eq!(cursor.selection(), 2..5);
    cursor.select = Some(0);
    assert_eq!(cursor.selection(), 0..2);
    cursor.select = Some(2);
    assert_eq!(cursor.selection(), 2..3);
}

#[test]
fn copy_of_a_cursor_is_equal() {
    let cursor = Cursor { range: 2..4, visual_horizontal_offset: Some(7), select: Some(1) };
    assert_eq!(cursor.clone(), cursor);
}

// Changes

#[test]
fn empty_change_is_told_from_others() {
    assert!(OpaqueDiff::no_diff().is_empty());
    assert!(OpaqueDiff::new(0, 0, 0).is_empty());
    assert!(!OpaqueDiff::new(1, 0, 0).is_empty());
    assert!(!OpaqueDiff::new(0, 1, 0).is_empty());
    assert!(!OpaqueDiff::new(0, 0, 1).is_empty());
}

#[test]
fn parser_is_told_where_a_change_ends() {
    let origin = Point { row: 0, column: 0 };
    assert_eq!(
        InputEdit::of(&OpaqueDiff::new(7, 2, 5)),
        InputEdit {
            start_byte: 7,
            old_end_byte: 9,
            new_end_byte: 12,
            start_position: origin,
            old_end_position: origin,
            new_end_position: origin,
        }
    );
}

#[test]
fn character_is_put_in_at_the_cursor() {
    let mut buffer = buffer_at("h\u{e9}llo\n", 2, 3);
    assert_eq!(buffer.insert_char('\u{fc}'), OpaqueDiff::new(2, 0, 1));
    assert_eq!(buffer.text.to_string(), "h\u{e9}\u{fc}llo\n");
    assert_eq!(buffer.cursor.range, 2..3);
    assert!(is_changed(&buffer));
}

#[test]
fn characters_are_put_in_at_the_cursor() {
    let mut buffer = buffer_at("h\u{e9}llo\n", 2, 3);
    let diff = buffer.insert_characters(&vec!['\u{fc}', 'x', '\u{1f600}']);
    assert_eq!(diff, OpaqueDiff::new(3, 0, 7));
    assert_eq!(buffer.text.to_string(), "h\u{e9}\u{fc}x\u{1f600}llo\n");
    assert_eq!(buffer.cursor.range, 2..3);
    assert!(is_changed(&buffer));
}

#[test]
fn deletion_takes_out_what_is_under_the_cursor() {
    let mut buffer = buffer_at("abc\n", 1, 2);
    assert_eq!(buffer.delete(), OpaqueDiff::new(1, 1, 0));
    assert_eq!(buffer.text.to_string(), "ac\n");
    assert_eq!(buffer.cursor.range, 1..2);
    assert!(is_changed(&buffer));

    let mut buffer = buffer_at("e\u{301}x", 0, 2);
    assert_eq!(buffer.delete(), OpaqueDiff::new(0, 2, 0));
    assert_eq!(buffer.text.to_string(), "x");
    assert_eq!(buffer.cursor.range, 0..1);
}

#[test]
fn deletion_at_the_end_goes_back_to_the_start() {
    let mut buffer = buffer_at("abc", 2, 3);
    assert_eq!(buffer.delete(), OpaqueDiff::new(2, 1, 0));
    assert_eq!(buffer.text.to_string(), "ab");
    assert_eq!(buffer.cursor.range, 0..1);
}

#[test]
fn deletion_in_an_empty_text_does_nothing() {
    let mut buffer = buffer_at("", 0, 1);
    assert!(buffer.delete().is_empty());
    assert!(buffer.delete_line().is_empty());
    assert!(is_unchanged(&buffer));
    assert!(buffer.yanked_line.is_none());
}

#[test]
fn line_is_cut() {
    let mut buffer = buffer_at("ab\ncd\nef\n", 4, 5);
    buffer.cursor.visual_horizontal_offset = Some(1);
    assert_eq!(buffer.delete_line(), OpaqueDiff::new(3, 3, 0));
    assert_eq!(buffer.text.to_string(), "ab\nef\n");
    assert_eq!(yanked(&buffer), "cd\n");
    assert_eq!(buffer.cursor, cursor_at(3, 4));
    assert!(is_changed(&buffer));
}

#[test]
fn last_line_is_cut() {
    let mut buffer = buffer_at("ab\ncd\nef\n", 7, 8);
    assert_eq!(buffer.delete_line(), OpaqueDiff::new(6, 3, 0));
    assert_eq!(buffer.text.to_string(), "ab\ncd\n");
    assert_eq!(buffer.cursor.range, 3..4);

    let mut buffer = buffer_at("ab", 1, 2);
    assert_eq!(buffer.delete_line(), OpaqueDiff::new(0, 2, 0));
    assert_eq!(buffer.text.to_string(), "");
    assert_eq!(yanked(&buffer), "ab");
    assert_eq!(buffer.cursor.range, 0..1);
}

#[test]
fn yanked_text_comes_before_the_cursor() {
    let mut buffer = buffer_at("xy\n", 1, 2);
    buffer.yanked_line = Some(Rope::from_str("1\n\u{e9}"));
    assert_eq!(buffer.yank_line(), OpaqueDiff::new(1, 0, 4));
    assert_eq!(buffer.text.to_string(), "x1\n\u{e9}y\n");
    assert_eq!(buffer.cursor.range, 4..5);
    assert!(is_changed(&buffer));
    assert_eq!(yanked(&buffer), "1\n\u{e9}");
}

#[test]
fn long_text_is_yanked_whole() {
    let long = "abc\u{e9}".repeat(2000);
    let mut buffer = buffer_at("<>\n", 1, 2);
    buffer.yanked_line = Some(Rope::from_str(&long));
    assert_eq!(buffer.yank_line(), OpaqueDiff::new(1, 0, 10000));
    assert_eq!(buffer.text.to_string(), format!("<{}>\n", long));
    assert_eq!(buffer.cursor.range, 8001..8002);
}

#[test]
fn yanking_without_anything_to_yank() {
    let mut buffer = buffer_at("xy\n", 1, 2);
    assert!(buffer.yank_line().is_empty());
    assert!(is_unchanged(&buffer));

    buffer.yanked_line = Some(Rope::new());
    buffer.cursor.range = 1..3;
    assert_eq!(buffer.yank_line(), OpaqueDiff::new(1, 0, 0));
    assert_eq!(buffer.text.to_string(), "xy\n");
    assert_eq!(buffer.cursor.range, 1..3);
    assert!(is_changed(&buffer));
}

#[test]
fn selection_is_copied() {
    let mut buffer = buffer_at("hello\n", 1, 2);
    buffer.cursor.select = Some(4);
    assert!(buffer.copy_selection().is_empty());
    assert_eq!(yanked(&buffer), "ell");
    assert_eq!(buffer.text.to_string(), "hello\n");
    assert_eq!(buffer.cursor, cursor_at(1, 2));
    assert!(is_unchanged(&buffer));
}

#[test]
fn selection_is_cut() {
    let mut buffer = buffer_at("hello\n", 1, 2);
    buffer.cursor.select = Some(4);
    assert_eq!(buffer.cut_selection(), OpaqueDiff::new(1, 3, 0));
    assert_eq!(yanked(&buffer), "ell");
    assert_eq!(buffer.text.to_string(), "ho\n");
    assert_eq!(buffer.cursor, cursor_at(1, 2));
    assert!(is_changed(&buffer));
}

#[test]
fn selection_before_the_cursor_is_cut() {
    let mut buffer = buffer_at("hello\n", 4, 5);
    buffer.cursor.select = Some(1);
    assert_eq!(buffer.cut_selection(), OpaqueDiff::new(1, 3, 0));
    assert_eq!(yanked(&buffer), "ell");
    assert_eq!(buffer.text.to_string(), "ho\n");
    assert_eq!(buffer.cursor, cursor_at(2, 3));
}

#[test]
fn whole_text_is_cut() {
    let mut buffer = buffer_at("ab", 0, 1);
    buffer.cursor.select = Some(2);
    assert_eq!(buffer.cut_selection(), OpaqueDiff::new(0, 2, 0));
    assert_eq!(buffer.text.to_string(), "");
    assert_eq!(buffer.cursor, cursor_at(0, 1));
}

#[test]
fn text_is_made_to_end_in_a_line_feed() {
    for (before, after) in [("", "\n"), ("a", "a\n"), ("a\n", "a\n"), ("a\r", "a\r\n")] {
        let mut buffer = buffer_at(before, 0, 1);
        buffer.ensure_trailing_newline_with_content();
        assert_eq!(buffer.text.to_string(), after);
        assert!(is_unchanged(&buffer));
    }
}

// Keys

#[test]
fn character_keys_type() {
    let mut buffer = buffer_at("", 0, 1);
    assert!(press(&mut buffer, Key::Char('h')).edit.is_none());
    assert_eq!(buffer.text.to_string(), "h\n");
    assert_eq!(buffer.cursor.range, 1..2);
    press(&mut buffer, Key::Char('i'));
    assert_eq!(buffer.text.to_string(), "hi\n");
    assert_eq!(buffer.cursor.range, 2..3);
    assert!(is_changed(&buffer));
}

#[test]
fn tab_key_types_a_tab() {
    assert!(!DISABLE_TABS);
    let mut buffer = buffer_at("ab\n", 0, 1);
    press(&mut buffer, Key::Char('\t'));
    assert_eq!(buffer.text.to_string(), "\tab\n");
    assert_eq!(buffer.cursor.range, 1..2);
}

#[test]
fn return_key_breaks_the_line() {
    let mut buffer = buffer_at("ab\n", 1, 2);
    press(&mut buffer, Key::Char('\n'));
    assert_eq!(buffer.text.to_string(), "a\nb\n");
    assert_eq!(buffer.cursor.range, 2..3);
}

#[test]
fn parser_is_told_of_edits_in_a_language() {
    let mut buffer = buffer_at("abc\n", 1, 2);
    buffer.mode.language = true;
    let edit = press(&mut buffer, Key::Char('x')).edit.unwrap();
    assert_eq!((edit.start_byte, edit.old_end_byte, edit.new_end_byte), (1, 1, 2));
    let edit = press(&mut buffer, Key::Backspace).edit.unwrap();
    assert_eq!((edit.start_byte, edit.old_end_byte, edit.new_end_byte), (1, 2, 1));
    assert!(press(&mut buffer, Key::Right).edit.is_none());
    assert!(press(&mut buffer, Key::Alt('w')).edit.is_none());
    let edit = press(&mut buffer, Key::Ctrl('k')).edit.unwrap();
    assert_eq!((edit.start_byte, edit.old_end_byte, edit.new_end_byte), (0, 4, 0));
}

#[test]
fn backspace_deletes_before_the_cursor() {
    let mut buffer = buffer_at("abc\n", 1, 2);
    press(&mut buffer, Key::Backspace);
    assert_eq!(buffer.text.to_string(), "bc\n");
    assert_eq!(buffer.cursor.range, 0..1);
    press(&mut buffer, Key::Backspace);
    assert_eq!(buffer.text.to_string(), "bc\n");
}

#[test]
fn deletion_keys_delete() {
    for key in [Key::Ctrl('d'), Key::Delete] {
        let mut buffer = buffer_at("abc\n", 1, 2);
        press(&mut buffer, key);
        assert_eq!(buffer.text.to_string(), "ac\n");
    }
}

#[test]
fn motion_keys_move() {
    let text = "ab\ncd\nef\n";
    for (key, range) in [
        (Key::Up, 1..2),
        (Key::Ctrl('p'), 1..2),
        (Key::Down, 7..8),
        (Key::Ctrl('n'), 7..8),
        (Key::Left, 3..4),
        (Key::Ctrl('b'), 3..4),
        (Key::Right, 5..6),
        (Key::Ctrl('f'), 5..6),
        (Key::Home, 3..4),
        (Key::Ctrl('a'), 3..4),
        (Key::End, 5..6),
        (Key::Ctrl('e'), 5..6),
        (Key::Alt('<'), 0..1),
        (Key::Alt('>'), 8..9),
    ] {
        let mut buffer = buffer_at(text, 4, 5);
        let outcome = press(&mut buffer, key);
        assert_eq!(buffer.cursor.range, range);
        assert_eq!(buffer.text.to_string(), text);
        assert!(outcome.save.is_none());
        assert!(outcome.edit.is_none());
        assert!(is_unchanged(&buffer));
    }
}

#[test]
fn page_keys_move_by_one_line_less_than_the_frame() {
    let frame = Rect::new(0, 0, 20, 3);
    for (down, up) in [(Key::PageDown, Key::PageUp), (Key::Ctrl('v'), Key::Alt('v'))] {
        let mut buffer = buffer_at("a\nb\nc\nd\n", 0, 1);
        buffer.handle_event(down, &frame, Instant::now());
        assert_eq!(buffer.cursor.range, 4..5);
        buffer.handle_event(down, &frame, Instant::now());
        assert_eq!(buffer.cursor.range, 6..7);
        buffer.handle_event(up, &frame, Instant::now());
        assert_eq!(buffer.cursor.range, 2..3);
        buffer.handle_event(down, &Rect::new(0, 0, 20, 1), Instant::now());
        assert_eq!(buffer.cursor.range, 2..3);
    }
}

#[test]
fn keys_select_copy_cut_and_yank() {
    let mut buffer = buffer_at("hello\n", 1, 2);
    press(&mut buffer, Key::Null);
    assert_eq!(buffer.cursor.select, Some(1));
    press(&mut buffer, Key::Ctrl('g'));
    assert_eq!(buffer.cursor.select, None);
    press(&mut buffer, Key::Null);
    press(&mut buffer, Key::Right);
    press(&mut buffer, Key::Right);
    press(&mut buffer, Key::Alt('w'));
    assert_eq!(yanked(&buffer), "el");
    assert_eq!(buffer.cursor.range, 3..4);
    press(&mut buffer, Key::Ctrl('y'));
    assert_eq!(buffer.text.to_string(), "helello\n");
    assert_eq!(buffer.cursor.range, 5..6);
    press(&mut buffer, Key::Null);
    press(&mut buffer, Key::Left);
    press(&mut buffer, Key::Ctrl('w'));
    assert_eq!(yanked(&buffer), "l");
    assert_eq!(buffer.text.to_string(), "helelo\n");
}

#[test]
fn save_key_asks_to_save() {
    let mut buffer = buffer_at("ab \n", 0, 1);
    let outcome = press(&mut buffer, Key::Alt('s'));
    let request = outcome.save.unwrap();
    assert_eq!(request.file_path, "notes.txt");
    assert_eq!(request.text.to_string(), "ab \n");
    assert!(matches!(buffer.has_unsaved_changes, ModifiedStatus::Saving(_)));
    assert_eq!(buffer.text.to_string(), "ab \n");

    buffer.file_path = None;
    assert!(buffer.spawn_save_file(Instant::now()).is_none());
}

#[test]
fn save_remembers_when_it_began() {
    let time = Instant::now();
    let mut buffer = buffer_at("", 0, 1);
    buffer.spawn_save_file(time);
    match buffer.has_unsaved_changes {
        ModifiedStatus::Saving(since) => assert_eq!(since, time),
        _ => panic!("not saving"),
    }
}

#[test]
fn other_keys_do_nothing() {
    for key in [Key::Esc, Key::F(1), Key::Insert, Key::BackTab, Key::Alt('x'), Key::Ctrl('z')] {
        let mut buffer = buffer_at("ab\ncd\n", 1, 2);
        let outcome = press(&mut buffer, key);
        assert!(outcome.save.is_none());
        assert!(outcome.edit.is_none());
        assert_eq!(buffer.text.to_string(), "ab\ncd\n");
        assert_eq!(buffer.cursor, cursor_at(1, 2));
        assert!(is_unchanged(&buffer));
    }
}

// Scrolling

#[test]
fn view_follows_the_cursor() {
    let frame = Rect::new(0, 0, 20, 3);
    let mut buffer = buffer_at("0\n1\n2\n3\n4\n5\n6\n7\n8\n9\n", 14, 15);
    buffer.ensure_cursor_in_view(&frame);
    assert_eq!(buffer.first_line, 5);
    buffer.first_line = 6;
    buffer.ensure_cursor_in_view(&frame);
    assert_eq!(buffer.first_line, 6);
    buffer.first_line = 9;
    buffer.ensure_cursor_in_view(&frame);
    assert_eq!(buffer.first_line, 7);
}

#[test]
fn view_is_centered_on_the_cursor() {
    let frame = Rect::new(0, 0, 20, 4);
    let mut buffer = buffer_at("0\n1\n2\n3\n4\n5\n6\n7\n8\n9\n", 14, 15);
    buffer.center_visual_cursor(&frame);
    assert_eq!(buffer.first_line, 5);
    buffer.center_visual_cursor(&frame);
    assert_eq!(buffer.first_line, 7);
    buffer.handle_event(Key::Ctrl('l'), &frame, Instant::now());
    assert_eq!(buffer.first_line, 5);
    buffer.cursor.range = 2..3;
    buffer.center_visual_cursor(&frame);
    assert_eq!(buffer.first_line, 5);
}

// Files

#[test]
fn buffer_is_made_of_a_file() {
    let mode = Mode { name: String::from("Rust"), language: true };
    let file: FileState<u8> = FileState::Present(Ok(Rope::from_str("fn main() {}\n")));
    let buffer = match Buffer::from_file(String::from("main.rs"), mode, file) {
        Ok(buffer) => buffer,
        Err(_) => panic!("no buffer"),
    };
    assert_eq!(buffer.text.to_string(), "fn main() {}\n");
    assert_eq!(buffer.file_path.as_deref(), Some("main.rs"));
    assert_eq!(buffer.mode.name, "Rust");
    assert!(buffer.mode.language);
    assert_eq!(buffer.cursor, Cursor::new());
    assert_eq!(buffer.first_line, 0);
    assert!(buffer.yanked_line.is_none());
    assert!(is_unchanged(&buffer));
}

#[test]
fn missing_file_makes_an_empty_buffer() {
    for found in [Ok(()), Err(OpenError { not_found: true, error: "no such file" })] {
        let mode = Mode { name: String::from("Text"), language: false };
        let buffer = Buffer::from_file(String::from("new"), mode, FileState::Absent(found));
        assert_eq!(buffer.ok().unwrap().text.len_chars(), 0);
    }
}

#[test]
fn file_that_cannot_be_opened_is_an_error() {
    for file in [
        FileState::Present(Err("denied")),
        FileState::Absent(Err(OpenError { not_found: false, error: "denied" })),
    ] {
        let mode = Mode { name: String::from("Text"), language: false };
        let result = Buffer::from_file(String::from("secret"), mode, file);
        assert_eq!(result.err(), Some("denied"));
    }
}

#[test]
fn white_space_is_what_unicode_says() {
    let listed = [
        '\u{9}', '\u{a}', '\u{b}', '\u{c}', '\u{d}', '\u{20}', '\u{85}', '\u{a0}', '\u{1680}',
        '\u{2000}', '\u{2001}', '\u{2002}', '\u{2003}', '\u{2004}', '\u{2005}', '\u{2006}',
        '\u{2007}', '\u{2008}', '\u{2009}', '\u{200a}', '\u{2028}', '\u{2029}', '\u{202f}',
        '\u{205f}', '\u{3000}',
    ];
    for character in '\0'..=char::MAX {
        assert_eq!(character.is_whitespace(), listed.contains(&character));
    }
    for character in ['\u{1680}', '\u{2000}', '\u{200a}', '\u{202f}', '\u{205f}', '\u{3000}'] {
        let text = Rope::from_str(&format!("a{}\n", character));
        assert_eq!(strip_trailing_whitespace(text).to_string(), "a\n");
    }
    for character in ['\u{180e}', '\u{200b}', '\u{2060}', '\u{feff}'] {
        let text = Rope::from_str(&format!("a{}\n", character));
        assert_eq!(strip_trailing_whitespace(text.clone()), text);
    }
}

#[test]
fn white_space_at_line_ends_is_taken_off() {
    for (before, after) in [
        ("a \t\nb\u{a0}\n  \nc  ", "a\nb\n\nc"),
        (" a b ", " a b"),
        ("a \u{2028}b \r\n", "a\u{2028}b\r\n"),
        ("", ""),
        ("   ", ""),
        ("a\n", "a\n"),
    ] {
        assert_eq!(strip_trailing_whitespace(Rope::from_str(before)).to_string(), after);
        assert_eq!(strip_trailing_whitespace(Rope::from_str(after)).to_string(), after);
    }
}

#[test]
fn saved_text_takes_the_place_of_the_old() {
    let mut buffer = buffer_at("ab  \ncd  \n", 3, 4);
    buffer.cursor.select = Some(1);
    buffer.cursor.visual_horizontal_offset = Some(3);
    buffer.spawn_save_file(Instant::now());
    let task: Result<BufferTask<u8>, u8> =
        Ok(BufferTask::SaveFile { text: Rope::from_str("ab\ncd\n") });
    assert_eq!(buffer.task_done(task), Ok(None));
    assert_eq!(buffer.text.to_string(), "ab\ncd\n");
    assert_eq!(buffer.cursor, cursor_at(2, 3));
    assert!(is_unchanged(&buffer));
}

#[test]
fn saved_text_with_fewer_lines() {
    let mut buffer = buffer_at("ab\ncd\nef\n", 7, 8);
    let task: Result<BufferTask<u8>, u8> =
        Ok(BufferTask::SaveFile { text: Rope::from_str("xyz\n") });
    assert_eq!(buffer.task_done(task), Ok(None));
    assert_eq!(buffer.cursor, cursor_at(3, 4));

    let mut buffer = buffer_at("ab\n", 1, 2);
    let task: Result<BufferTask<u8>, u8> = Ok(BufferTask::SaveFile { text: Rope::new() });
    assert_eq!(buffer.task_done(task), Ok(None));
    assert_eq!(buffer.cursor, cursor_at(0, 1));
}

#[test]
fn saved_text_is_placed_by_clusters() {
    let mut buffer = buffer_at("abc\n", 1, 2);
    let task: Result<BufferTask<u8>, u8> =
        Ok(BufferTask::SaveFile { text: Rope::from_str("e\u{301}c\n") });
    assert_eq!(buffer.task_done(task), Ok(None));
    assert_eq!(buffer.cursor, cursor_at(0, 2));
}

#[test]
fn saved_text_keeps_the_cursor_on_its_line() {
    for (new, range) in [
        ("ab\n\u{301}\u{301}c\n", 3..5),
        ("ab\r\n\u{301}c\r\n", 5..6),
        ("ab\n\u{1f1f7}\u{1f1f8}\u{1f1ee}\u{1f1f4}\n", 3..5),
    ] {
        let mut buffer = buffer_at("ab\ncd\n", 4, 5);
        let text = Rope::from_str(new);
        let task: Result<BufferTask<u8>, u8> = Ok(BufferTask::SaveFile { text });
        assert_eq!(buffer.task_done(task), Ok(None));
        assert_eq!(buffer.text.char_to_line(buffer.cursor.range.start), 1);
        assert_eq!(buffer.cursor.range, range);
    }
}

#[test]
fn parser_results_are_handed_back() {
    let mut buffer = buffer_at("ab\n", 1, 2);
    let task: Result<BufferTask<u8>, u8> = Ok(BufferTask::ParseSyntax(9));
    assert_eq!(buffer.task_done(task), Ok(Some(9)));
    let task: Result<BufferTask<u8>, u8> = Err(4);
    assert_eq!(buffer.task_done(task), Err(4));
    assert_eq!(buffer.text.to_string(), "ab\n");
    assert_eq!(buffer.cursor, cursor_at(1, 2));
}

// What holds across operations

#[test]
fn cut_line_comes_back_when_yanked() {
    let mut buffer = buffer_at("ab\ncd\nef\n", 4, 5);
    press(&mut buffer, Key::Ctrl('k'));
    press(&mut buffer, Key::Ctrl('y'));
    assert_eq!(buffer.text.to_string(), "ab\ncd\nef\n");
}

#[test]
fn cut_last_line_comes_back_before_the_one_left() {
    let mut buffer = buffer_at("a\nb\n", 2, 3);
    press(&mut buffer, Key::Ctrl('k'));
    press(&mut buffer, Key::Ctrl('y'));
    assert_eq!(buffer.text.to_string(), "b\na\n");
}

#[test]
fn cut_selection_comes_back_when_yanked() {
    let mut buffer = buffer_at("hello\n", 1, 2);
    buffer.cursor.select = Some(4);
    press(&mut buffer, Key::Ctrl('w'));
    press(&mut buffer, Key::Ctrl('y'));
    assert_eq!(buffer.text.to_string(), "hello\n");
}

#[test]
fn cutting_takes_what_copying_takes() {
    let mut copied = buffer_at("hello\n", 3, 4);
    copied.cursor.select = Some(0);
    let mut cut = buffer_at("hello\n", 3, 4);
    cut.cursor.select = Some(0);
    press(&mut copied, Key::Alt('w'));
    press(&mut cut, Key::Ctrl('w'));
    assert_eq!(yanked(&copied), yanked(&cut));
    assert_eq!(yanked(&cut), "hel");
}

#[test]
fn down_and_up_return() {
    let mut buffer = buffer_at("ab\ncd\nef\n", 1, 2);
    press(&mut buffer, Key::Down);
    press(&mut buffer, Key::Up);
    assert_eq!(buffer.cursor.range, 1..2);
}

#[test]
fn backspace_takes_back_what_was_typed() {
    let mut buffer = buffer_at("ab\n", 1, 2);
    press(&mut buffer, Key::Char('x'));
    assert_eq!(buffer.text.to_string(), "axb\n");
    press(&mut buffer, Key::Backspace);
    assert_eq!(buffer.text.to_string(), "ab\n");
    press(&mut buffer, Key::Char('\n'));
    press(&mut buffer, Key::Backspace);
    assert_eq!(buffer.text.to_string(), "ab\n");
}

#[test]
fn typed_text_ends_in_a_line_feed() {
    let mut buffer = buffer_at("ab", 1, 2);
    press(&mut buffer, Key::Char('x'));
    assert_eq!(buffer.text.to_string(), "axb\n");
}

#[test]
fn line_feed_is_ensured_once() {
    let mut buffer = buffer_at("ab", 1, 2);
    buffer.ensure_trailing_newline_with_content();
    buffer.ensure_trailing_newline_with_content();
    assert_eq!(buffer.text.to_string(), "ab\n");
    assert_eq!(buffer.cursor, cursor_at(1, 2));
    assert!(is_unchanged(&buffer));
}

#[test]
fn aliases_do_the_same() {
    for (key, named) in [
        (Key::Ctrl('p'), Key::Up),
        (Key::Ctrl('n'), Key::Down),
        (Key::Ctrl('b'), Key::Left),
        (Key::Ctrl('f'), Key::Right),
        (Key::Ctrl('v'), Key::PageDown),
        (Key::Alt('v'), Key::PageUp),
        (Key::Ctrl('a'), Key::Home),
        (Key::Ctrl('e'), Key::End),
        (Key::Ctrl('d'), Key::Delete),
    ] {
        let mut one = buffer_at("ab\ncd\nef\n", 4, 5);
        one.mode.language = true;
        let mut other = buffer_at("ab\ncd\nef\n", 4, 5);
        other.mode.language = true;
        let outcome = press(&mut one, key);
        assert_eq!(outcome.edit, press(&mut other, named).edit);
        assert!(outcome.save.is_none());
        assert_eq!(one.text, other.text);
        assert_eq!(one.cursor, other.cursor);
        assert_eq!(one.first_line, other.first_line);
        assert_eq!(is_changed(&one), is_changed(&other));
    }
}

#[test]
fn keys_change_what_is_theirs() {
    for (key, changes, takes) in [
        (Key::Ctrl('d'), true, false),
        (Key::Ctrl('k'), true, true),
        (Key::Ctrl('y'), true, false),
        (Key::Backspace, true, false),
        (Key::Ctrl('w'), true, true),
        (Key::Char('x'), true, false),
        (Key::Alt('w'), false, true),
        (Key::Alt('s'), false, false),
        (Key::Down, false, false),
    ] {
        let mut buffer = buffer_at("ab\ncd\n", 4, 5);
        buffer.yanked_line = Some(Rope::from_str("old"));
        press(&mut buffer, key);
        assert_eq!(buffer.text.to_string() != "ab\ncd\n", changes);
        assert_eq!(is_changed(&buffer), changes);
        assert_eq!(yanked(&buffer) != "old", takes);
    }
}

#[test]
fn keys_keep_file_and_mode() {
    let mut buffer = buffer_at("ab\n", 1, 2);
    for key in [Key::Char('x'), Key::Ctrl('k'), Key::Ctrl('y'), Key::Alt('s'), Key::Down] {
        press(&mut buffer, key);
        assert_eq!(buffer.file_path.as_deref(), Some("notes.txt"));
        assert_eq!(buffer.mode.name, "Text");
    }
}

#[test]
fn save_of_a_tidy_text_moves_nothing() {
    let mut buffer = buffer_at("ab\ncd\n", 4, 5);
    let request = press(&mut buffer, Key::Alt('s')).save.unwrap();
    let text = strip_trailing_whitespace(request.text);
    let task: Result<BufferTask<u8>, u8> = Ok(BufferTask::SaveFile { text });
    assert_eq!(buffer.task_done(task), Ok(None));
    assert_eq!(buffer.text.to_string(), "ab\ncd\n");
    assert_eq!(buffer.cursor, cursor_at(4, 5));
}
