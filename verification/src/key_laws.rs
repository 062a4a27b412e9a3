//! What each key does.

use std::time::Instant;
use vstd::prelude::*;

use crate::buffer::{asks_to_save, BufferModel, ModifiedStatus, SaveRequest};
use crate::cursor::{
    down, down_n, end_of_buffer, end_of_line, left, right, start_of_buffer, start_of_line, up, up_n,
    within, CursorModel,
};
use crate::diff::{no_change, DiffModel};
use crate::edit::{
    deleted, deleted_diff, line_deleted, line_deleted_diff, selection_copied, selection_cut,
    selection_cut_diff, with, yanked, yanked_diff,
};
use crate::edit_laws::law_deletion_stays_in_place;
use crate::event::{edited, edited_diff, handled, moved, typed, with_cursor};
use crate::grapheme::{lemma_boundaries, next_boundary, prev_boundary};
use crate::key::Key;
use crate::laws::law_down_moves_one_line;
use crate::lines::{
    ends_line, lemma_line_of_contains, lemma_line_of_order, lemma_line_start, lemma_line_start_is,
    line_of, line_start, starts_line,
};
use crate::motion_laws::{
    is_led_to_line, law_motions_down_count_lines, law_motions_up_count_lines,
};
use crate::rope::contents;

verus! {

/// Whether only the cursor of a buffer has moved, and nothing is reported.
pub open spec fn only_moves(
    buffer: BufferModel,
    key: Key,
    after: BufferModel,
    cursor: CursorModel,
) -> bool {
    &&& after == (BufferModel { cursor, ..buffer })
    &&& edited_diff(buffer, key) == no_change()
}

/// The arrow keys, and the control keys that stand for them, move the cursor by a
/// cluster or by a line.
pub proof fn law_arrow_keys_move(buffer: BufferModel, key: Key, height: int, time: Instant)
    ensures
        key == Key::Up || key == Key::Ctrl('p') ==> only_moves(
            buffer,
            key,
            handled(buffer, key, height, time),
            up(buffer.text, buffer.cursor),
        ),
        key == Key::Down || key == Key::Ctrl('n') ==> only_moves(
            buffer,
            key,
            handled(buffer, key, height, time),
            down(buffer.text, buffer.cursor),
        ),
        key == Key::Left || key == Key::Ctrl('b') ==> only_moves(
            buffer,
            key,
            handled(buffer, key, height, time),
            left(buffer.text, buffer.cursor),
        ),
        key == Key::Right || key == Key::Ctrl('f') ==> only_moves(
            buffer,
            key,
            handled(buffer, key, height, time),
            right(buffer.text, buffer.cursor),
        ),
{
    reveal(moved);
    reveal(edited);
    reveal(edited_diff);
}

/// Other keys move the cursor to the ends of its line and of the text.
pub proof fn law_end_keys_move(buffer: BufferModel, key: Key, height: int, time: Instant)
    ensures
        key == Key::Home || key == Key::Ctrl('a') ==> only_moves(
            buffer,
            key,
            handled(buffer, key, height, time),
            start_of_line(buffer.text, buffer.cursor),
        ),
        key == Key::End || key == Key::Ctrl('e') ==> only_moves(
            buffer,
            key,
            handled(buffer, key, height, time),
            end_of_line(buffer.text, buffer.cursor),
        ),
        key == Key::Alt('<') ==> only_moves(
            buffer,
            key,
            handled(buffer, key, height, time),
            start_of_buffer(buffer.text, buffer.cursor),
        ),
        key == Key::Alt('>') ==> only_moves(
            buffer,
            key,
            handled(buffer, key, height, time),
            end_of_buffer(buffer.text, buffer.cursor),
        ),
{
    reveal(moved);
    reveal(edited);
    reveal(edited_diff);
}

proof fn lemma_page_keys(buffer: BufferModel, key: Key, height: int, time: Instant)
    ensures
        key == Key::PageDown || key == Key::Ctrl('v') ==> only_moves(
            buffer,
            key,
            handled(buffer, key, height, time),
            down_n(buffer.text, buffer.cursor, (height - 1) as nat),
        ),
        key == Key::PageUp || key == Key::Alt('v') ==> only_moves(
            buffer,
            key,
            handled(buffer, key, height, time),
            up_n(buffer.text, buffer.cursor, (height - 1) as nat),
        ),
{
    reveal(moved);
    reveal(edited);
    reveal(edited_diff);
}

/// A page down leads down by one line less than the frame has, and keeps the column. If
/// the text ends before, it leads to the last line with text. Only the cursor moves.
pub proof fn law_page_down_leads_a_page_down(
    buffer: BufferModel,
    key: Key,
    height: int,
    time: Instant,
)
    requires
        within(buffer.cursor, buffer.text),
        buffer.cursor.column matches Some(column) ==> column >= 0,
        height > 0,
        key == Key::PageDown || key == Key::Ctrl('v'),
    ensures
        ({
            let text = buffer.text;
            let line = line_of(text, buffer.cursor.start);
            let after = handled(buffer, key, height, time);
            let reached = line_of(text, after.cursor.start);
            &&& only_moves(buffer, key, after, after.cursor)
            &&& height == 1 || line_start(text, line + height - 1) < text.len() ==> reached == line
                + height - 1
            &&& line <= reached <= line + height - 1
            &&& reached < line + height - 1 ==> line_start(text, reached + 1) == text.len()
            &&& reached == line ==> after == buffer
            &&& reached > line ==> is_led_to_line(text, buffer.cursor, reached, after.cursor)
        }),
{
    lemma_page_keys(buffer, key, height, time);
    law_motions_down_count_lines(buffer.text, buffer.cursor, (height - 1) as nat);
}

/// A page up leads up by one line less than the frame has, or to the first line, and
/// keeps the column. Only the cursor moves.
pub proof fn law_page_up_leads_a_page_up(
    buffer: BufferModel,
    key: Key,
    height: int,
    time: Instant,
)
    requires
        within(buffer.cursor, buffer.text),
        buffer.cursor.column matches Some(column) ==> column >= 0,
        height > 0,
        key == Key::PageUp || key == Key::Alt('v'),
    ensures
        ({
            let text = buffer.text;
            let line = line_of(text, buffer.cursor.start);
            let after = handled(buffer, key, height, time);
            let reached = line_of(text, after.cursor.start);
            &&& only_moves(buffer, key, after, after.cursor)
            &&& line >= height - 1 ==> reached == line - (height - 1)
            &&& line < height - 1 ==> reached == 0
            &&& reached == line ==> after == buffer
            &&& reached < line ==> is_led_to_line(text, buffer.cursor, reached, after.cursor)
        }),
{
    lemma_page_keys(buffer, key, height, time);
    law_motions_up_count_lines(buffer.text, buffer.cursor, (height - 1) as nat);
}

/// A mark can be set at the cursor and taken away. Nothing else changes.
pub proof fn law_mark_keys_mark(buffer: BufferModel, height: int, time: Instant)
    ensures
        only_moves(
            buffer,
            Key::Null,
            handled(buffer, Key::Null, height, time),
            CursorModel { select: Some(buffer.cursor.start), ..buffer.cursor },
        ),
        only_moves(
            buffer,
            Key::Ctrl('g'),
            handled(buffer, Key::Ctrl('g'), height, time),
            CursorModel { select: None, ..buffer.cursor },
        ),
{
    reveal(moved);
    reveal(edited);
    reveal(edited_diff);
}

/// The key that centers puts the line of the cursor in the middle of the frame; where
/// it is there, at its top; and nowhere where there are too few lines above it. Nothing
/// else changes.
pub proof fn law_center_key_scrolls(buffer: BufferModel, height: int, time: Instant)
    requires
        height >= 0,
    ensures
        ({
            let after = handled(buffer, Key::Ctrl('l'), height, time);
            let line = line_of(buffer.text, buffer.cursor.start);
            let above = line - buffer.first_line;
            &&& after == (BufferModel { first_line: after.first_line, ..buffer })
            &&& line < height / 2 ==> after.first_line == buffer.first_line
            &&& line >= height / 2 && above != height / 2 ==> line - after.first_line == height / 2
            &&& line >= height / 2 && above == height / 2 ==> after.first_line == line
            &&& edited_diff(buffer, Key::Ctrl('l')) == no_change()
        }),
{
    reveal(moved);
    reveal(edited);
    reveal(edited_diff);
}

/// The key that saves marks the buffer as being saved, and changes nothing else. What it
/// asks for is that the whole text be written to the file of the buffer; without a file
/// it asks for nothing.
pub proof fn law_save_key_saves(
    buffer: BufferModel,
    request: Option<SaveRequest>,
    height: int,
    time: Instant,
)
    ensures
        handled(buffer, Key::Alt('s'), height, time) == (BufferModel {
            modified: ModifiedStatus::Saving(time),
            ..buffer
        }),
        edited_diff(buffer, Key::Alt('s')) == no_change(),
        asks_to_save(request, buffer) ==> (request is Some <==> buffer.file_path is Some),
        asks_to_save(request, buffer) && request is Some ==> contents(request->0.text)
            == buffer.text && buffer.file_path == Some(request->0.file_path@),
{
    reveal(moved);
    reveal(edited);
    reveal(edited_diff);
}

/// The keys that delete, cut, copy and yank do so.
pub proof fn law_edit_keys_edit(buffer: BufferModel, key: Key, height: int, time: Instant)
    ensures
        key == Key::Delete || key == Key::Ctrl('d') ==> {
            &&& handled(buffer, key, height, time) == deleted(buffer)
            &&& edited_diff(buffer, key) == deleted_diff(buffer)
        },
        key == Key::Ctrl('k') ==> {
            &&& handled(buffer, key, height, time) == line_deleted(buffer)
            &&& edited_diff(buffer, key) == line_deleted_diff(buffer)
        },
        key == Key::Ctrl('y') ==> {
            &&& handled(buffer, key, height, time) == yanked(buffer)
            &&& edited_diff(buffer, key) == yanked_diff(buffer)
        },
        key == Key::Alt('w') ==> {
            &&& handled(buffer, key, height, time) == selection_copied(buffer)
            &&& edited_diff(buffer, key) == no_change()
        },
        key == Key::Ctrl('w') ==> {
            &&& handled(buffer, key, height, time) == selection_cut(buffer)
            &&& edited_diff(buffer, key) == selection_cut_diff(buffer)
        },
{
    reveal(moved);
    reveal(edited);
    reveal(edited_diff);
}

proof fn lemma_backspace(buffer: BufferModel, height: int, time: Instant)
    ensures
        buffer.cursor.start <= 0 ==> handled(buffer, Key::Backspace, height, time) == buffer
            && edited_diff(buffer, Key::Backspace) == no_change(),
        buffer.cursor.start > 0 ==> {
            let moved_left = with_cursor(buffer, left(buffer.text, buffer.cursor));
            &&& handled(buffer, Key::Backspace, height, time) == deleted(moved_left)
            &&& edited_diff(buffer, Key::Backspace) == deleted_diff(moved_left)
        },
{
    reveal(moved);
    reveal(edited);
    reveal(edited_diff);
}

/// Backspace takes out the cluster before the cursor, and the cursor is then where that
/// was; behind the last character it goes back to the first. At the start of the text
/// nothing happens.
pub proof fn law_backspace_deletes_before_the_cursor(
    buffer: BufferModel,
    height: int,
    time: Instant,
)
    requires
        buffer.valid(),
    ensures
        buffer.cursor.start == 0 ==> handled(buffer, Key::Backspace, height, time) == buffer
            && edited_diff(buffer, Key::Backspace) == no_change(),
        buffer.cursor.start > 0 ==> {
            let after = handled(buffer, Key::Backspace, height, time);
            let place = prev_boundary(buffer.text, buffer.cursor.start);
            &&& after.text == buffer.text.take(place) + buffer.text.skip(buffer.cursor.start)
            &&& place < after.text.len() ==> after.cursor.start == place && after.cursor.end
                == next_boundary(after.text, place)
            &&& place >= after.text.len() ==> after.cursor.start == 0 && after.cursor.end == 1
            &&& after.cursor.column is None
            &&& after.cursor.select == buffer.cursor.select
            &&& after.modified == ModifiedStatus::Changed
            &&& after.yanked == buffer.yanked
            &&& after.first_line == buffer.first_line
            &&& edited_diff(buffer, Key::Backspace) == (DiffModel {
                byte_index: place,
                old_length: buffer.cursor.start - place,
                new_length: 0,
            })
        },
{
    lemma_backspace(buffer, height, time);
    if buffer.cursor.start > 0 {
        lemma_boundaries(buffer.text, buffer.cursor.start);
        law_deletion_stays_in_place(with_cursor(buffer, left(buffer.text, buffer.cursor)));
    }
}

/// Whether a text is another one with a character put in, and with a line feed at its
/// end.
pub open spec fn is_typed(
    before: Seq<char>,
    index: int,
    character: char,
    after: Seq<char>,
) -> bool {
    let one = before.take(index) + seq![character] + before.skip(index);
    after == if one.last() == '\n' {
        one
    } else {
        one.push('\n')
    }
}

proof fn lemma_typed(buffer: BufferModel, character: char, height: int, time: Instant)
    ensures
        ({
            let typed = typed(buffer, character);
            handled(buffer, Key::Char(character), height, time) == if character == '\n' {
                with_cursor(typed, start_of_line(typed.text, down(typed.text, typed.cursor)))
            } else {
                with_cursor(typed, right(typed.text, typed.cursor))
            }
        }),
        edited_diff(buffer, Key::Char(character)) == (DiffModel {
            byte_index: buffer.cursor.start,
            old_length: 0,
            new_length: 1,
        }),
{
    reveal(moved);
    reveal(edited);
    reveal(edited_diff);
}

/// A character key puts its character in before the cursor, and a line feed at the end
/// of the text where there is none. The cursor goes on to the next cluster.
pub proof fn law_character_keys_type(
    buffer: BufferModel,
    character: char,
    height: int,
    time: Instant,
)
    requires
        buffer.valid(),
        character != '\n',
    ensures
        ({
            let after = handled(buffer, Key::Char(character), height, time);
            &&& is_typed(buffer.text, buffer.cursor.start, character, after.text)
            &&& after.cursor.start == buffer.cursor.end
            &&& after.cursor.end == next_boundary(after.text, buffer.cursor.end)
            &&& after.cursor.column is None
            &&& after.cursor.select == buffer.cursor.select
            &&& after.modified == ModifiedStatus::Changed
            &&& after.yanked == buffer.yanked
            &&& after.first_line == buffer.first_line
        }),
        edited_diff(buffer, Key::Char(character)) == (DiffModel {
            byte_index: buffer.cursor.start,
            old_length: 0,
            new_length: 1,
        }),
{
    lemma_typed(buffer, character, height, time);
    assert(with(buffer.text, buffer.cursor.start, seq![character]).len() == buffer.text.len() + 1);
}

/// The return key puts a line feed in before the cursor, and the cursor at the start of
/// the line that begins behind it. At the very end of the text no such line has begun:
/// there the cursor goes to the start of its own.
pub proof fn law_return_key_breaks_the_line(buffer: BufferModel, height: int, time: Instant)
    requires
        buffer.valid(),
    ensures
        ({
            let after = handled(buffer, Key::Char('\n'), height, time);
            let start = after.cursor.start;
            &&& is_typed(buffer.text, buffer.cursor.start, '\n', after.text)
            &&& buffer.cursor.start < buffer.text.len() ==> start == buffer.cursor.start + 1
            &&& buffer.cursor.start == buffer.text.len() ==> {
                &&& 0 <= start <= buffer.cursor.start
                &&& start == 0 || ends_line(after.text, start - 1)
                &&& forall|i: int|
                    start <= i < buffer.cursor.start ==> !#[trigger] ends_line(after.text, i)
            }
            &&& after.cursor.end == next_boundary(after.text, start)
            &&& after.cursor.column is None
            &&& after.cursor.select == buffer.cursor.select
            &&& after.modified == ModifiedStatus::Changed
            &&& after.yanked == buffer.yanked
            &&& after.first_line == buffer.first_line
        }),
{
    let place = buffer.cursor.start;
    let one = with(buffer.text, place, seq!['\n']);
    let text = typed(buffer, '\n').text;
    let line = line_of(text, place);
    let after = handled(buffer, Key::Char('\n'), height, time);
    lemma_typed(buffer, '\n', height, time);
    assert(one[place] == '\n');
    assert(text[place] == '\n');
    assert(ends_line(text, place));
    assert(starts_line(text, line + 1, place + 1));
    lemma_line_start_is(text, line + 1, place + 1);
    lemma_line_of_contains(text, place);
    assert(one.len() == buffer.text.len() + 1);
    if place < buffer.text.len() {
        law_down_moves_one_line(text, buffer.cursor);
    } else {
        assert(one.last() == '\n');
        assert(after.cursor.start == line_start(text, line));
        lemma_line_start(text, line);
        lemma_line_of_order(text, line_start(text, line), place);
    }
}

/// Whether a key has a meaning.
pub open spec fn has_meaning(key: Key) -> bool {
    match key {
        Key::Up | Key::Down | Key::Left | Key::Right | Key::PageDown | Key::PageUp => true,
        Key::Home | Key::End | Key::Null | Key::Delete | Key::Backspace | Key::Char(_) => true,
        Key::Ctrl(c) => c == 'p' || c == 'n' || c == 'b' || c == 'f' || c == 'v' || c == 'a' || c
            == 'e' || c == 'l' || c == 'g' || c == 'd' || c == 'k' || c == 'y' || c == 'w',
        Key::Alt(c) => c == 'v' || c == '<' || c == '>' || c == 's' || c == 'w',
        _ => false,
    }
}

/// All other keys do nothing.
pub proof fn law_other_keys_do_nothing(buffer: BufferModel, key: Key, height: int, time: Instant)
    requires
        !has_meaning(key),
    ensures
        handled(buffer, key, height, time) == buffer,
        edited_diff(buffer, key) == no_change(),
{
    reveal(moved);
    reveal(edited);
    reveal(edited_diff);
}

} // verus!
