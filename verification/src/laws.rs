//! What holds of a buffer across its operations.

use std::time::Instant;
use vstd::prelude::*;

use crate::buffer::{saving, BufferModel, ModifiedStatus};
use crate::cursor::{
    chars_within, down, down_n, end_of_buffer, end_of_line, kept_column, left, right, selected,
    start_of_buffer, start_of_line, to_line, up, up_n, within, CursorModel,
};
use crate::diff::{no_change, DiffModel};
use crate::edit::{
    deleted, inserted, line_after_deletion, line_deleted, newline_ended, newline_ensured,
    selection_copied, selection_cut, selection_within, with, without, yanked,
};
use crate::event::{
    can_handle, edited, edited_diff, handled, is_selection_key, moved, typed, with_cursor,
};
use crate::grapheme::{lemma_boundaries, measured, prev_boundary, Cluster};
use crate::key::Key;
use crate::lines::{
    break_start, ends_line, lemma_break_start, lemma_line_body, lemma_line_bounds,
    lemma_line_of_contains, lemma_line_of_order, lemma_line_start, lemma_line_start_is, line_body,
    line_count, line_end, line_of, line_start, starts_line,
};
use crate::save::{goes_on, is_kept, lemma_goes_on_step, stripped, stripped_from};
use crate::scroll::{centered, cursor_line, scrolled};
use crate::task::{same_place, saved, smaller};
use crate::utf8::{
    byte_len, byte_offset, char_bytes, lemma_byte_len_bounds, lemma_byte_len_push,
    lemma_byte_len_split,
};

verus! {

/// Moving up leads to the line before, and no further than to the first.
pub proof fn law_up_moves_one_line(text: Seq<char>, cursor: CursorModel)
    requires
        within(cursor, text),
    ensures
        line_of(text, cursor.start) > 0 ==> line_of(text, up(text, cursor).start) == line_of(
            text,
            cursor.start,
        ) - 1,
        line_of(text, cursor.start) == 0 ==> up(text, cursor) == cursor,
{
    let line = line_of(text, cursor.start);
    lemma_line_of_contains(text, cursor.start);
    if line > 0 {
        lemma_to_line(text, cursor, line - 1);
    }
}

/// Moving down leads to the next line, if there is text on it.
pub proof fn law_down_moves_one_line(text: Seq<char>, cursor: CursorModel)
    requires
        within(cursor, text),
    ensures
        line_end(text, line_of(text, cursor.start)) < text.len() ==> line_of(
            text,
            down(text, cursor).start,
        ) == line_of(text, cursor.start) + 1,
        line_end(text, line_of(text, cursor.start)) == text.len() ==> down(text, cursor) == cursor,
{
    let line = line_of(text, cursor.start);
    lemma_line_of_contains(text, cursor.start);
    if line_end(text, line) != text.len() {
        lemma_to_line(text, cursor, line + 1);
    }
}

proof fn lemma_to_line(text: Seq<char>, cursor: CursorModel, line: int)
    requires
        0 <= line < line_count(text),
    ensures
        line_of(text, to_line(text, cursor, line).start) == line,
        0 <= to_line(text, cursor, line).start <= text.len(),
{
    lemma_break_start(text, line);
    lemma_chars_within(measured(line_body(text, line)), kept_column(text, cursor));
    lemma_line_body(text, line, to_line(text, cursor, line).start);
}

proof fn lemma_chars_within(pieces: Seq<Cluster>, columns: int)
    ensures
        chars_within(pieces, columns) >= 0,
    decreases pieces.len(),
{
    if pieces.len() > 0 && pieces[0].width <= columns {
        lemma_chars_within(pieces.drop_first(), columns - pieces[0].width);
    }
}

/// Moving down and then up, the cursor comes back to its line.
pub proof fn law_down_and_up_return_to_line(text: Seq<char>, cursor: CursorModel)
    requires
        within(cursor, text),
        line_end(text, line_of(text, cursor.start)) < text.len(),
    ensures
        line_of(text, up(text, down(text, cursor)).start) == line_of(text, cursor.start),
{
    let line = line_of(text, cursor.start);
    law_down_moves_one_line(text, cursor);
    lemma_line_of_contains(text, cursor.start);
    lemma_to_line(text, down(text, cursor), line);
}

/// No motion leads out of the text.
pub proof fn law_motions_stay_within(text: Seq<char>, cursor: CursorModel)
    requires
        within(cursor, text),
    ensures
        within(left(text, cursor), text),
        within(right(text, cursor), text),
        within(up(text, cursor), text),
        within(down(text, cursor), text),
        within(start_of_line(text, cursor), text),
        within(end_of_line(text, cursor), text),
        within(start_of_buffer(text, cursor), text),
        within(end_of_buffer(text, cursor), text),
{
    let line = line_of(text, cursor.start);
    lemma_line_of_contains(text, cursor.start);
    lemma_line_bounds(text, line);
    lemma_break_start(text, line);
    lemma_boundaries(text, cursor.start);
    if cursor.end <= text.len() {
        lemma_boundaries(text, cursor.end);
    }
    lemma_boundaries(text, line_start(text, line));
    lemma_boundaries(text, break_start(text, line));
    lemma_boundaries(text, 0);
    lemma_boundaries(text, text.len() as int);
    if line > 0 {
        lemma_to_line(text, cursor, line - 1);
        lemma_boundaries(text, up(text, cursor).start);
    }
    if line_end(text, line) != text.len() {
        lemma_to_line(text, cursor, line + 1);
        lemma_boundaries(text, down(text, cursor).start);
    }
}

/// A page down leads down by no more than its lines, and a page up leads up by no
/// more than that.
pub proof fn law_pages_move_by_their_lines(text: Seq<char>, cursor: CursorModel, lines: nat)
    requires
        within(cursor, text),
    ensures
        line_of(text, cursor.start) <= line_of(text, down_n(text, cursor, lines).start) <= line_of(
            text,
            cursor.start,
        ) + lines,
        line_of(text, cursor.start) - lines <= line_of(text, up_n(text, cursor, lines).start)
            <= line_of(text, cursor.start),
        within(down_n(text, cursor, lines), text),
        within(up_n(text, cursor, lines), text),
    decreases lines,
{
    if lines > 0 {
        let fewer = (lines - 1) as nat;
        law_pages_move_by_their_lines(text, cursor, fewer);
        lemma_line_of_contains(text, down_n(text, cursor, fewer).start);
        lemma_line_bounds(text, line_of(text, down_n(text, cursor, fewer).start));
        law_down_moves_one_line(text, down_n(text, cursor, fewer));
        law_motions_stay_within(text, down_n(text, cursor, fewer));
        lemma_line_of_contains(text, up_n(text, cursor, fewer).start);
        law_up_moves_one_line(text, up_n(text, cursor, fewer));
        law_motions_stay_within(text, up_n(text, cursor, fewer));
    }
}

/// Going to the start of the line stays on the line, and doing so again changes
/// nothing.
pub proof fn law_start_of_line_is_stable(text: Seq<char>, cursor: CursorModel)
    requires
        within(cursor, text),
    ensures
        line_of(text, start_of_line(text, cursor).start) == line_of(text, cursor.start),
        start_of_line(text, start_of_line(text, cursor)) == start_of_line(text, cursor),
{
    lemma_line_of_contains(text, cursor.start);
    lemma_line_start(text, line_of(text, cursor.start));
}

/// Going to the end of the line stays on the line, and doing so again changes
/// nothing.
pub proof fn law_end_of_line_is_stable(text: Seq<char>, cursor: CursorModel)
    requires
        within(cursor, text),
    ensures
        line_of(text, end_of_line(text, cursor).start) == line_of(text, cursor.start),
        end_of_line(text, end_of_line(text, cursor)) == end_of_line(text, cursor),
{
    let line = line_of(text, cursor.start);
    lemma_line_of_contains(text, cursor.start);
    lemma_break_start(text, line);
    lemma_line_body(text, line, break_start(text, line));
}

/// Scrolling brings the cursor into view, does nothing where it is, and so does
/// nothing a second time.
pub proof fn law_scrolling_shows_the_cursor(buffer: BufferModel, height: int)
    requires
        height > 0,
    ensures
        scrolled(buffer, height).first_line <= cursor_line(buffer) < scrolled(
            buffer,
            height,
        ).first_line + height,
        buffer.first_line <= cursor_line(buffer) < buffer.first_line + height ==> scrolled(
            buffer,
            height,
        ) == buffer,
        scrolled(scrolled(buffer, height), height) == scrolled(buffer, height),
{
}

/// Centering shows the cursor wherever it moves the view, and centering once more
/// puts the line of the cursor first.
pub proof fn law_centering_shows_the_cursor(buffer: BufferModel, height: int)
    requires
        height > 0,
        cursor_line(buffer) >= height / 2,
    ensures
        centered(buffer, height).first_line <= cursor_line(buffer) < centered(
            buffer,
            height,
        ).first_line + height,
        buffer.first_line != cursor_line(buffer) - height / 2 ==> centered(
            centered(buffer, height),
            height,
        ).first_line == cursor_line(buffer),
{
}

/// A line that is cut and yanked at once is back in its place. This takes that the
/// cursor is left on the line that took its place, and that the cut does not join a
/// carriage return before it to a line feed behind it.
pub proof fn law_cut_line_and_yank(buffer: BufferModel)
    requires
        buffer.valid(),
        buffer.text.len() > 0,
        line_after_deletion(line_deleted(buffer).text, cursor_line(buffer)) == cursor_line(buffer),
        ({
            let start = line_start(buffer.text, cursor_line(buffer));
            let end = line_end(buffer.text, cursor_line(buffer));
            !(0 < start && end < buffer.text.len() && buffer.text[start - 1] == '\r'
                && buffer.text[end] == '\n')
        }),
    ensures
        yanked(line_deleted(buffer)).text == buffer.text,
{
    let text = buffer.text;
    let line = cursor_line(buffer);
    let start = line_start(text, line);
    let end = line_end(text, line);
    let cut = line_deleted(buffer).text;
    lemma_line_of_contains(text, buffer.cursor.start);
    lemma_line_bounds(text, line);
    lemma_line_start(text, line);
    assert(cut.take(start) =~= text.take(start));
    if start > 0 {
        assert(cut[start - 1] == text[start - 1]);
        if start < cut.len() {
            assert(cut[start] == text[end]);
        }
        assert(ends_line(cut, start - 1));
    }
    lemma_same_line(text, cut, start, start);
    assert(starts_line(cut, line, start));
    lemma_line_start_is(cut, line, start);
    lemma_boundaries(cut, start);
    lemma_line_of_order(cut, 0, start);
    assert(line_deleted(buffer).cursor.start == start);
    assert(with(cut, start, text.subrange(start, end)) =~= text);
}

/// Positions before a place at which a text is changed are on the same lines as
/// before, where the change does not join the halves of a line break.
pub proof fn lemma_same_line(a: Seq<char>, b: Seq<char>, place: int, index: int)
    requires
        0 <= index <= place <= a.len(),
        place <= b.len(),
        a.take(place) == b.take(place),
        place > 0 ==> ends_line(a, place - 1) == ends_line(b, place - 1),
    ensures
        line_of(a, index) == line_of(b, index),
    decreases index,
{
    if index > 0 {
        lemma_same_line(a, b, place, index - 1);
        assert(a[index - 1] == a.take(place)[index - 1]);
        assert(b[index - 1] == b.take(place)[index - 1]);
        if index < place {
            assert(a[index] == a.take(place)[index]);
            assert(b[index] == b.take(place)[index]);
        }
    }
}

/// A selection that is cut and yanked at once is back in its place, where the
/// cursor is left at its start.
pub proof fn law_cut_selection_and_yank(buffer: BufferModel)
    requires
        buffer.valid(),
        selection_within(buffer),
        ({
            let cut = selection_cut(buffer).text;
            smaller(buffer.cursor.start, prev_boundary(cut, cut.len() as int)) == selected(
                buffer.cursor,
            ).0
        }),
    ensures
        yanked(selection_cut(buffer)).text == buffer.text,
{
    let (start, end) = selected(buffer.cursor);
    let cut = selection_cut(buffer).text;
    lemma_boundaries(cut, cut.len() as int);
    lemma_boundaries(cut, start);
    assert(with(cut, start, buffer.text.subrange(start, end)) =~= buffer.text);
}

/// Cutting takes what copying takes, and copying leaves the text as it is.
pub proof fn law_cut_and_copy_take_the_same(buffer: BufferModel)
    ensures
        selection_cut(buffer).yanked == selection_copied(buffer).yanked,
        selection_copied(buffer).text == buffer.text,
        selection_copied(buffer).modified == buffer.modified,
{
}

/// No key both moves and edits: one that moves leaves the text as it is, and one
/// that edits moves nothing before it does so.
pub proof fn law_keys_move_or_edit(buffer: BufferModel, key: Key, height: int, time: Instant)
    ensures
        moved(buffer, key, height, time) == buffer || handled(buffer, key, height, time) == moved(
            buffer,
            key,
            height,
            time,
        ),
        moved(buffer, key, height, time).text == buffer.text,
        moved(buffer, key, height, time).yanked == buffer.yanked,
{
    reveal(moved);
    reveal(edited);
}

/// No key changes what the buffer is of: its file and its mode.
pub proof fn law_keys_keep_file_and_mode(buffer: BufferModel, key: Key, height: int, time: Instant)
    ensures
        handled(buffer, key, height, time).file_path == buffer.file_path,
        handled(buffer, key, height, time).mode_name == buffer.mode_name,
        handled(buffer, key, height, time).language == buffer.language,
{
    lemma_moved_keeps_file_and_mode(buffer, key, height, time);
    lemma_edited_keeps_file_and_mode(moved(buffer, key, height, time), key);
}

proof fn lemma_moved_keeps_file_and_mode(buffer: BufferModel, key: Key, height: int, time: Instant)
    ensures
        moved(buffer, key, height, time).file_path == buffer.file_path,
        moved(buffer, key, height, time).mode_name == buffer.mode_name,
        moved(buffer, key, height, time).language == buffer.language,
{
    reveal(moved);
}

proof fn lemma_edited_keeps_file_and_mode(buffer: BufferModel, key: Key)
    ensures
        edited(buffer, key).file_path == buffer.file_path,
        edited(buffer, key).mode_name == buffer.mode_name,
        edited(buffer, key).language == buffer.language,
{
    reveal(edited);
}

/// A key that changes the text says so: without a report of a change the text is as
/// it was, and with one the buffer counts as changed.
pub proof fn law_changes_are_marked(buffer: BufferModel, key: Key)
    requires
        buffer.valid(),
    ensures
        edited(buffer, key).text != buffer.text ==> edited(buffer, key).modified
            == ModifiedStatus::Changed,
        edited_diff(buffer, key) != no_change() ==> edited(buffer, key).modified
            == ModifiedStatus::Changed,
{
    reveal(edited);
    reveal(edited_diff);
}

/// Whether a key can change the text.
pub open spec fn changes_text(key: Key) -> bool {
    match key {
        Key::Ctrl('d') | Key::Delete | Key::Ctrl('k') | Key::Ctrl('y') | Key::Backspace | Key::Ctrl(
            'w',
        ) | Key::Char(_) => true,
        _ => false,
    }
}

/// Whether a key cuts or copies.
pub open spec fn takes_text(key: Key) -> bool {
    key == Key::Ctrl('k') || key == Key::Alt('w') || key == Key::Ctrl('w')
}

/// A key that is not for it changes no text, and one that changes the text marks the
/// buffer as changed. A key that neither cuts nor copies leaves alone what was cut or
/// copied. No key changes the file or the mode.
pub proof fn law_keys_change_what_is_theirs(
    buffer: BufferModel,
    key: Key,
    height: int,
    time: Instant,
)
    ensures
        handled(buffer, key, height, time).text != buffer.text ==> changes_text(key) && handled(
            buffer,
            key,
            height,
            time,
        ).modified == ModifiedStatus::Changed,
        handled(buffer, key, height, time).yanked != buffer.yanked ==> takes_text(key),
        handled(buffer, key, height, time).file_path == buffer.file_path,
        handled(buffer, key, height, time).mode_name == buffer.mode_name,
        handled(buffer, key, height, time).language == buffer.language,
{
    law_keys_keep_file_and_mode(buffer, key, height, time);
    law_keys_move_or_edit(buffer, key, height, time);
    lemma_edited_changes(moved(buffer, key, height, time), key);
}

proof fn lemma_edited_changes(buffer: BufferModel, key: Key)
    ensures
        edited(buffer, key).text != buffer.text ==> changes_text(key) && edited(
            buffer,
            key,
        ).modified == ModifiedStatus::Changed,
        edited(buffer, key).yanked != buffer.yanked ==> takes_text(key),
{
    reveal(edited);
}

/// Whether two keys are for the same: a control key and the one named for what it
/// does.
pub open spec fn are_aliases(key: Key, named: Key) -> bool {
    ||| key == Key::Ctrl('p') && named == Key::Up
    ||| key == Key::Ctrl('n') && named == Key::Down
    ||| key == Key::Ctrl('b') && named == Key::Left
    ||| key == Key::Ctrl('f') && named == Key::Right
    ||| key == Key::Ctrl('v') && named == Key::PageDown
    ||| key == Key::Alt('v') && named == Key::PageUp
    ||| key == Key::Ctrl('a') && named == Key::Home
    ||| key == Key::Ctrl('e') && named == Key::End
    ||| key == Key::Ctrl('d') && named == Key::Delete
}

/// Two keys that are for the same can be handled alike, leave the same buffer, and
/// report the same change. Neither of them saves.
pub proof fn law_aliases_do_the_same(
    buffer: BufferModel,
    key: Key,
    named: Key,
    height: int,
    time: Instant,
)
    requires
        are_aliases(key, named),
    ensures
        can_handle(buffer, key, height) == can_handle(buffer, named, height),
        handled(buffer, key, height, time) == handled(buffer, named, height, time),
        edited_diff(buffer, key) == edited_diff(buffer, named),
        key != Key::Alt('s'),
        named != Key::Alt('s'),
{
    lemma_aliases_move_alike(buffer, key, named, height, time);
    lemma_aliases_edit_alike(buffer, key, named);
    lemma_aliases_edit_alike(moved(buffer, key, height, time), key, named);
}

proof fn lemma_aliases_move_alike(
    buffer: BufferModel,
    key: Key,
    named: Key,
    height: int,
    time: Instant,
)
    requires
        are_aliases(key, named),
    ensures
        moved(buffer, key, height, time) == moved(buffer, named, height, time),
{
    reveal(moved);
}

proof fn lemma_aliases_edit_alike(buffer: BufferModel, key: Key, named: Key)
    requires
        are_aliases(key, named),
    ensures
        edited(buffer, key) == edited(buffer, named),
        edited_diff(buffer, key) == edited_diff(buffer, named),
{
    reveal(edited);
    reveal(edited_diff);
}

/// Making a text end in a line feed adds one where there is none, and only there. So
/// the text then ends in one, doing so again changes nothing, and nothing but the text
/// is touched.
pub proof fn law_newline_is_ensured_once(buffer: BufferModel)
    ensures
        newline_ensured(buffer).text.len() > 0,
        newline_ensured(buffer).text.last() == '\n',
        buffer.text.len() > 0 && buffer.text.last() == '\n' ==> newline_ensured(buffer) == buffer,
        buffer.text.len() == 0 || buffer.text.last() != '\n' ==> newline_ensured(buffer).text
            == buffer.text.push('\n'),
        newline_ensured(newline_ensured(buffer)) == newline_ensured(buffer),
        newline_ensured(buffer) == (BufferModel { text: newline_ensured(buffer).text, ..buffer }),
{
}

/// After a character is typed the text ends in a line feed.
pub proof fn law_typed_text_ends_in_newline(
    buffer: BufferModel,
    character: char,
    height: int,
    time: Instant,
)
    requires
        buffer.valid(),
    ensures
        handled(buffer, Key::Char(character), height, time).text.len() > 0,
        handled(buffer, Key::Char(character), height, time).text.last() == '\n',
{
    reveal(moved);
    reveal(edited);
}

/// Backspace takes back what a key has typed, but for the line feed at the end of
/// the text. This takes that the cursor was on one character, and that the one
/// typed is a cluster of its own.
pub proof fn law_backspace_takes_back(
    buffer: BufferModel,
    character: char,
    height: int,
    time: Instant,
)
    requires
        buffer.valid(),
        character != '\n',
        buffer.cursor.end == buffer.cursor.start + 1,
        prev_boundary(typed(buffer, character).text, buffer.cursor.end) == buffer.cursor.start,
    ensures
        handled(
            handled(buffer, Key::Char(character), height, time),
            Key::Backspace,
            height,
            time,
        ).text == newline_ended(buffer.text),
{
    let start = buffer.cursor.start;
    let one = with(buffer.text, start, seq![character]);
    let after = handled(buffer, Key::Char(character), height, time);
    lemma_handled_char(buffer, character, height, time);
    lemma_handled_backspace(after, height, time);
    assert(without(after.text, start, start + 1) =~= newline_ended(buffer.text)) by {
        assert(one.len() == buffer.text.len() + 1);
        if buffer.text.len() > 0 {
            assert(one.last() == buffer.text.last());
        }
    }
}

/// Backspace takes back a line feed that was typed within the text, but for the one
/// at the end of the text. This takes that the line feed is a cluster of its own.
pub proof fn law_backspace_joins_lines(buffer: BufferModel, height: int, time: Instant)
    requires
        buffer.valid(),
        buffer.cursor.start < buffer.text.len(),
        prev_boundary(typed(buffer, '\n').text, buffer.cursor.start + 1) == buffer.cursor.start,
    ensures
        handled(
            handled(buffer, Key::Char('\n'), height, time),
            Key::Backspace,
            height,
            time,
        ).text == newline_ended(buffer.text),
{
    let start = buffer.cursor.start;
    let one = with(buffer.text, start, seq!['\n']);
    let text = typed(buffer, '\n').text;
    let line = line_of(text, start);
    let after = handled(buffer, Key::Char('\n'), height, time);
    lemma_handled_newline(buffer, height, time);
    assert(one[start] == '\n');
    assert(text[start] == '\n');
    assert(ends_line(text, start));
    assert(starts_line(text, line + 1, start + 1));
    lemma_line_start_is(text, line + 1, start + 1);
    law_down_moves_one_line(text, buffer.cursor);
    assert(after.cursor.start == start + 1);
    lemma_handled_backspace(after, height, time);
    assert(without(after.text, start, start + 1) =~= newline_ended(buffer.text)) by {
        assert(one.len() == buffer.text.len() + 1);
        assert(one.last() == buffer.text.last());
    }
}

proof fn lemma_handled_newline(buffer: BufferModel, height: int, time: Instant)
    ensures
        handled(buffer, Key::Char('\n'), height, time) == ({
            let typed = typed(buffer, '\n');
            with_cursor(typed, start_of_line(typed.text, down(typed.text, typed.cursor)))
        }),
{
    reveal(moved);
    reveal(edited);
}

proof fn lemma_handled_char(buffer: BufferModel, character: char, height: int, time: Instant)
    requires
        character != '\n',
    ensures
        handled(buffer, Key::Char(character), height, time) == ({
            let typed = typed(buffer, character);
            with_cursor(typed, right(typed.text, typed.cursor))
        }),
{
    reveal(moved);
    reveal(edited);
}

proof fn lemma_handled_backspace(buffer: BufferModel, height: int, time: Instant)
    requires
        buffer.cursor.start > 0,
    ensures
        handled(buffer, Key::Backspace, height, time) == deleted(
            with_cursor(buffer, left(buffer.text, buffer.cursor)),
        ),
{
    reveal(moved);
    reveal(edited);
}

/// Whether a change is the one that leads from one text to another, counted in
/// bytes: before it and behind it the text is as it was.
pub open spec fn leads_to(diff: DiffModel, before: Seq<char>, after: Seq<char>) -> bool {
    let start = diff.byte_index;
    let old_end = start + diff.old_length;
    let new_end = old_end + after.len() - before.len();
    &&& 0 <= start <= old_end <= before.len()
    &&& start <= new_end <= after.len()
    &&& after.take(start) == before.take(start)
    &&& after.skip(new_end) == before.skip(old_end)
    &&& diff.byte_index == byte_offset(before, start)
    &&& diff.old_length == byte_len(before.subrange(start, old_end))
    &&& diff.new_length == byte_len(after.subrange(start, new_end))
}

proof fn lemma_removal_leads_to(text: Seq<char>, start: int, end: int)
    requires
        0 <= start <= end <= text.len(),
        byte_offset(text, end) == end,
    ensures
        leads_to(
            DiffModel { byte_index: start, old_length: end - start, new_length: 0 },
            text,
            without(text, start, end),
        ),
{
    let after = without(text, start, end);
    lemma_one_byte_prefix(text, start, end);
    assert(after.take(start) =~= text.take(start));
    assert(after.skip(start) =~= text.skip(end));
    assert(after.subrange(start, start) =~= Seq::<char>::empty());
}

proof fn lemma_insertion_leads_to(text: Seq<char>, index: int, added: Seq<char>)
    requires
        0 <= index <= text.len(),
        byte_offset(text, index) == index,
    ensures
        leads_to(
            DiffModel { byte_index: index, old_length: 0, new_length: byte_len(added) },
            text,
            with(text, index, added),
        ),
{
    let after = with(text, index, added);
    lemma_one_byte_prefix(text, index, index);
    assert(after.take(index) =~= text.take(index));
    assert(after.skip(index + added.len()) =~= text.skip(index));
    assert(after.subrange(index, index + added.len()) =~= added);
}

/// The change that a parser is told of is the one made, counted in bytes: before it
/// and behind it the text is as it was. This takes that the characters up to its end
/// are of one byte each, as is one that is typed, and that no line feed is added at
/// the end of the text.
#[verifier::rlimit(40)]
pub proof fn law_changes_are_told(buffer: BufferModel, key: Key)
    requires
        buffer.valid(),
        is_selection_key(key) ==> selection_within(buffer),
        ({
            let end = edited_diff(buffer, key).byte_index + edited_diff(buffer, key).old_length;
            byte_offset(buffer.text, end) == end
        }),
        key matches Key::Char(character) ==> char_bytes(character) == 1 && newline_ended(
            inserted(buffer, seq![character]).text,
        ) == inserted(buffer, seq![character]).text,
    ensures
        leads_to(edited_diff(buffer, key), buffer.text, edited(buffer, key).text),
{
    reveal(edited);
    reveal(edited_diff);
    let text = buffer.text;
    let cursor = buffer.cursor;
    if let Key::Char(character) = key {
        lemma_byte_len_push(Seq::empty(), character);
        assert(Seq::<char>::empty().push(character) =~= seq![character]);
        lemma_insertion_leads_to(text, cursor.start, seq![character]);
    } else if key == Key::Ctrl('y') && buffer.yanked is Some {
        lemma_insertion_leads_to(text, cursor.start, buffer.yanked->0);
    } else if key == Key::Ctrl('k') && text.len() > 0 {
        lemma_line_of_contains(text, cursor.start);
        lemma_line_bounds(text, cursor_line(buffer));
        lemma_removal_leads_to(
            text,
            line_start(text, cursor_line(buffer)),
            line_end(text, cursor_line(buffer)),
        );
    } else if key == Key::Ctrl('w') {
        lemma_removal_leads_to(text, selected(cursor).0, selected(cursor).1);
    } else if (key == Key::Ctrl('d') || key == Key::Delete) && text.len() > 0 {
        lemma_removal_leads_to(text, cursor.start, cursor.end);
    } else if key == Key::Backspace && cursor.start > 0 {
        lemma_boundaries(text, cursor.start);
        lemma_removal_leads_to(text, prev_boundary(text, cursor.start), cursor.start);
    } else {
        lemma_removal_leads_to(text, 0, 0);
        assert(without(text, 0, 0) =~= text);
    }
}

proof fn lemma_one_byte_prefix(text: Seq<char>, start: int, end: int)
    requires
        0 <= start <= end <= text.len(),
        byte_offset(text, end) == end,
    ensures
        byte_offset(text, start) == start,
        byte_len(text.subrange(start, end)) == end - start,
{
    lemma_byte_len_split(text.take(end), start);
    assert(text.take(end).take(start) =~= text.take(start));
    assert(text.take(end).skip(start) =~= text.subrange(start, end));
    lemma_byte_len_bounds(text.take(start));
    lemma_byte_len_bounds(text.subrange(start, end));
}

/// What is written has no white space at the end of a line, and tidying it up again
/// changes nothing.
pub proof fn law_stripped_text_is_tidy(text: Seq<char>)
    ensures
        forall|i: int| 0 <= i < stripped(text).len() ==> is_kept(stripped(text), i),
        stripped(stripped(text)) == stripped(text),
{
    lemma_stripped_from(text, 0);
}

proof fn lemma_stripped_from(text: Seq<char>, index: int)
    requires
        0 <= index <= text.len(),
    ensures
        goes_on(stripped_from(text, index), 0) == goes_on(text, index),
        forall|i: int|
            0 <= i < stripped_from(text, index).len() ==> is_kept(stripped_from(text, index), i),
        stripped_from(stripped_from(text, index), 0) == stripped_from(text, index),
    decreases text.len() - index,
{
    let tidy = stripped_from(text, index);
    if index < text.len() {
        let rest = stripped_from(text, index + 1);
        lemma_stripped_from(text, index + 1);
        lemma_goes_on_step(text, index);
        if is_kept(text, index) {
            assert(tidy =~= seq![text[index]] + rest);
            lemma_goes_on_step(tidy, 0);
            lemma_goes_on_shift(text[index], rest, 0);
            assert forall|i: int| 0 <= i < tidy.len() implies is_kept(tidy, i) by {
                if i > 0 {
                    lemma_goes_on_shift(text[index], rest, i - 1);
                    assert(is_kept(rest, i - 1));
                }
            }
            lemma_stripped_from_shift(text[index], rest, 0);
        }
    }
}

proof fn lemma_goes_on_shift(first: char, rest: Seq<char>, index: int)
    requires
        0 <= index,
    ensures
        goes_on(seq![first] + rest, index + 1) == goes_on(rest, index),
    decreases rest.len() - index,
{
    let whole = seq![first] + rest;
    if index < rest.len() {
        lemma_goes_on_step(whole, index + 1);
        lemma_goes_on_step(rest, index);
        lemma_goes_on_shift(first, rest, index + 1);
    }
}

proof fn lemma_stripped_from_shift(first: char, rest: Seq<char>, index: int)
    requires
        0 <= index,
    ensures
        stripped_from(seq![first] + rest, index + 1) == stripped_from(rest, index),
    decreases rest.len() - index,
{
    if index < rest.len() {
        lemma_goes_on_shift(first, rest, index);
        lemma_stripped_from_shift(first, rest, index + 1);
    }
}

/// Where a save changes nothing of the text, no place in it moves. This takes that
/// the place is on a character, or on a last line without one.
pub proof fn law_save_keeps_places(text: Seq<char>, index: int)
    requires
        0 <= index <= text.len(),
        index < text.len() || line_start(text, line_of(text, index)) == index,
    ensures
        same_place(text, text, index) == index,
{
    lemma_line_of_contains(text, index);
    lemma_line_bounds(text, line_of(text, index));
}

/// A save that is done leaves the buffer unchanged as against its file, with the text
/// that was written.
pub proof fn law_saved_buffer_is_unchanged(buffer: BufferModel, text: Seq<char>, time: Instant)
    ensures
        saved(saving(buffer, time), text).modified == ModifiedStatus::Unchanged,
        saved(saving(buffer, time), text).text == text,
        saved(saving(buffer, time), text).yanked == buffer.yanked,
{
}

} // verus!
