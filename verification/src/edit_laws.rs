//! What the edits of a buffer do to its text and to its cursor.

use vstd::prelude::*;

use crate::buffer::{BufferModel, ModifiedStatus};
use crate::cursor::CursorModel;
use crate::diff::{describes, no_change, DiffModel, InputEdit};
use crate::edit::{
    can_yank, deleted, deleted_diff, inserted, inserted_char_diff, inserted_diff, line_deleted,
    line_deleted_diff, selection_copied, selection_cut, selection_cut_diff, selection_within,
    yanked, yanked_diff,
};
use crate::grapheme::{lemma_boundaries, next_boundary, prev_boundary};
use crate::laws::lemma_same_line;
use crate::lines::{
    ends_line, is_break, lemma_first_line, lemma_line_bounds, lemma_line_of_contains,
    lemma_line_of_order, lemma_line_start, lemma_line_start_is, line_count, line_end, line_of,
    line_start, starts_line,
};
use crate::utf8::byte_len;

verus! {

/// Whether a cursor is on the cluster at `index`; where the text has no character, on
/// the place of the first.
pub open spec fn is_on_cluster(text: Seq<char>, cursor: CursorModel, index: int) -> bool {
    if text.len() == 0 {
        cursor.start == 0 && cursor.end == 1
    } else {
        cursor.start == index && cursor.end == next_boundary(text, index)
    }
}

/// A deletion takes out what is under the cursor, and nothing else. The cursor stays at
/// the place of the deletion wherever there is a character left; behind the last one it
/// goes back to the first. In a text without a character nothing happens.
pub proof fn law_deletion_stays_in_place(buffer: BufferModel)
    requires
        buffer.valid(),
    ensures
        buffer.text.len() == 0 ==> deleted(buffer) == buffer && deleted_diff(buffer) == no_change(),
        buffer.text.len() > 0 ==> {
            let after = deleted(buffer);
            let start = buffer.cursor.start;
            let end = buffer.cursor.end;
            &&& after.text == buffer.text.take(start) + buffer.text.skip(end)
            &&& after.text.len() == buffer.text.len() - (end - start)
            &&& after.modified == ModifiedStatus::Changed
            &&& start < after.text.len() ==> after.cursor.start == start && after.cursor.end
                == next_boundary(after.text, start) > start
            &&& start >= after.text.len() ==> after.cursor.start == 0 && after.cursor.end == 1
            &&& after.cursor.column == buffer.cursor.column
            &&& after.cursor.select == buffer.cursor.select
            &&& after.yanked == buffer.yanked
            &&& after.first_line == buffer.first_line
            &&& deleted_diff(buffer) == (DiffModel {
                byte_index: start,
                old_length: end - start,
                new_length: 0,
            })
        },
{
    if buffer.text.len() > 0 {
        lemma_boundaries(deleted(buffer).text, buffer.cursor.start);
    }
}

/// Cutting a line takes it out whole and keeps it to be yanked. The cursor is then at
/// the start of the line that took its place, which is where the line was cut out. Only
/// where no line break follows that place is it at the start of the line before the
/// last, or at the start of the only one.
pub proof fn law_line_cut_stays_in_place(buffer: BufferModel)
    requires
        buffer.valid(),
        buffer.text.len() > 0,
    ensures
        ({
            let line = line_of(buffer.text, buffer.cursor.start);
            let start = line_start(buffer.text, line);
            let end = line_start(buffer.text, line + 1);
            let after = line_deleted(buffer);
            let lines = line_count(after.text);
            &&& after.text == buffer.text.take(start) + buffer.text.skip(end)
            &&& after.yanked == Some(buffer.text.subrange(start, end))
            &&& after.modified == ModifiedStatus::Changed
            &&& after.cursor.column is None
            &&& after.cursor.select == buffer.cursor.select
            &&& after.first_line == buffer.first_line
            &&& line + 2 <= lines ==> line_of(after.text, after.cursor.start) == line
            &&& line + 2 > lines ==> line_of(after.text, after.cursor.start) == if lines >= 2 {
                lines - 2
            } else {
                0
            }
            &&& after.cursor.start == 0 || ends_line(after.text, after.cursor.start - 1)
            &&& is_on_cluster(after.text, after.cursor, after.cursor.start)
            &&& line_deleted_diff(buffer) == (DiffModel {
                byte_index: start,
                old_length: end - start,
                new_length: 0,
            })
        }),
{
    let text = buffer.text;
    let line = line_of(text, buffer.cursor.start);
    let after = line_deleted(buffer);
    let lines = line_count(after.text);
    lemma_line_of_contains(text, buffer.cursor.start);
    lemma_line_bounds(text, line);
    lemma_first_line(after.text);
    let target = if line + 2 <= lines {
        line
    } else if lines >= 2 {
        lines - 2
    } else {
        0
    };
    lemma_line_start(after.text, target);
    lemma_line_bounds(after.text, target);
    lemma_boundaries(after.text, line_start(after.text, target));
    if lines == 1 {
        assert(line_start(after.text, 0) == 0);
    }
}

/// Where a line is cut out before other lines, and these end in a line break, the
/// cursor starts where the line was cut out, on the line of the same number. This takes
/// that no carriage return before the line meets a line feed behind it.
pub proof fn law_line_cut_leaves_the_next_line(buffer: BufferModel)
    requires
        buffer.valid(),
        ({
            let start = line_start(buffer.text, line_of(buffer.text, buffer.cursor.start));
            let end = line_start(buffer.text, line_of(buffer.text, buffer.cursor.start) + 1);
            &&& end < buffer.text.len()
            &&& is_break(buffer.text.last())
            &&& !(0 < start && buffer.text[start - 1] == '\r' && buffer.text[end] == '\n')
        }),
    ensures
        ({
            let line = line_of(buffer.text, buffer.cursor.start);
            let after = line_deleted(buffer);
            &&& after.cursor.start == line_start(buffer.text, line)
            &&& after.cursor.end == next_boundary(after.text, after.cursor.start)
            &&& line_of(after.text, after.cursor.start) == line
        }),
{
    let text = buffer.text;
    let line = line_of(text, buffer.cursor.start);
    let start = line_start(text, line);
    let end = line_end(text, line);
    let after = line_deleted(buffer);
    lemma_line_of_contains(text, buffer.cursor.start);
    lemma_line_bounds(text, line);
    lemma_line_start(text, line);
    law_line_cut_stays_in_place(buffer);
    assert(after.text.take(start) =~= text.take(start));
    assert(after.text[start] == text[end]);
    if start > 0 {
        assert(after.text[start - 1] == text[start - 1]);
        assert(ends_line(after.text, start - 1));
    }
    lemma_same_line(text, after.text, start, start);
    assert(starts_line(after.text, line, start));
    lemma_line_start_is(after.text, line, start);
    let length = after.text.len() as int;
    assert(after.text[length - 1] == text[text.len() - 1]);
    assert(ends_line(after.text, length - 1));
    lemma_line_of_order(after.text, start, length);
    lemma_line_start_is(after.text, line, after.cursor.start);
}

/// Yanking puts in what was cut or copied before the cursor, which is then behind it.
/// With nothing to put in, the cursor stays; with nothing cut or copied, so does all.
pub proof fn law_yank_comes_before_the_cursor(buffer: BufferModel)
    requires
        buffer.valid(),
        can_yank(buffer),
    ensures
        buffer.yanked is None ==> yanked(buffer) == buffer && yanked_diff(buffer) == no_change(),
        buffer.yanked matches Some(clipboard) ==> {
            let after = yanked(buffer);
            let start = buffer.cursor.start;
            &&& after.text == buffer.text.take(start) + clipboard + buffer.text.skip(start)
            &&& after.modified == ModifiedStatus::Changed
            &&& clipboard.len() == 0 ==> after.cursor == buffer.cursor
            &&& clipboard.len() > 0 ==> {
                &&& after.cursor.start == start + clipboard.len()
                &&& after.cursor.end == next_boundary(after.text, after.cursor.start)
            }
            &&& after.cursor.column == buffer.cursor.column
            &&& after.cursor.select == buffer.cursor.select
            &&& after.yanked == buffer.yanked
            &&& after.first_line == buffer.first_line
            &&& yanked_diff(buffer) == (DiffModel {
                byte_index: start,
                old_length: 0,
                new_length: byte_len(clipboard),
            })
        },
{
}

/// What is selected: from the mark to the cursor or from the cursor to the mark; without
/// a mark, or with one at the cursor, what is under it.
pub open spec fn is_selected(cursor: CursorModel, start: int, end: int) -> bool {
    match cursor.select {
        Some(mark) => if mark == cursor.start {
            start == cursor.start && end == cursor.end
        } else {
            &&& start < end
            &&& (start == mark && end == cursor.start) || (start == cursor.start && end == mark)
        },
        None => start == cursor.start && end == cursor.end,
    }
}

/// Copying keeps the selected characters to be yanked and ends the selection. All else
/// stays.
pub proof fn law_copy_takes_the_selection(buffer: BufferModel, start: int, end: int)
    requires
        is_selected(buffer.cursor, start, end),
    ensures
        selection_copied(buffer).yanked == Some(buffer.text.subrange(start, end)),
        selection_copied(buffer) == (BufferModel {
            yanked: selection_copied(buffer).yanked,
            cursor: CursorModel { select: None, ..buffer.cursor },
            ..buffer
        }),
{
}

/// Cutting takes the selected characters out and keeps them to be yanked. The cursor
/// stays where it was, or on the last cluster where the text has become shorter than
/// that.
pub proof fn law_cut_takes_the_selection_out(buffer: BufferModel, start: int, end: int)
    requires
        buffer.valid(),
        selection_within(buffer),
        is_selected(buffer.cursor, start, end),
    ensures
        ({
            let after = selection_cut(buffer);
            let last = prev_boundary(after.text, after.text.len() as int);
            &&& after.text == buffer.text.take(start) + buffer.text.skip(end)
            &&& after.yanked == Some(buffer.text.subrange(start, end))
            &&& after.modified == ModifiedStatus::Changed
            &&& buffer.cursor.start <= last ==> is_on_cluster(
                after.text,
                after.cursor,
                buffer.cursor.start,
            )
            &&& buffer.cursor.start > last ==> is_on_cluster(after.text, after.cursor, last)
            &&& after.cursor.column is None
            &&& after.cursor.select is None
            &&& after.first_line == buffer.first_line
            &&& selection_cut_diff(buffer) == (DiffModel {
                byte_index: start,
                old_length: end - start,
                new_length: 0,
            })
        }),
{
    let after = selection_cut(buffer);
    let length = after.text.len() as int;
    let last = prev_boundary(after.text, length);
    lemma_boundaries(after.text, length);
    lemma_boundaries(after.text, last);
    if buffer.cursor.start <= last {
        lemma_boundaries(after.text, buffer.cursor.start);
    }
}

/// Characters are put in before the cursor, which stays. Their report counts in bytes;
/// that of a single character counts in characters.
pub proof fn law_insertion_comes_before_the_cursor(buffer: BufferModel, added: Seq<char>)
    ensures
        inserted(buffer, added) == (BufferModel {
            text: buffer.text.take(buffer.cursor.start) + added + buffer.text.skip(
                buffer.cursor.start,
            ),
            modified: ModifiedStatus::Changed,
            ..buffer
        }),
        inserted_diff(buffer, added) == (DiffModel {
            byte_index: byte_len(buffer.text.take(buffer.cursor.start)),
            old_length: 0,
            new_length: byte_len(added),
        }),
        inserted_char_diff(buffer) == (DiffModel {
            byte_index: buffer.cursor.start,
            old_length: 0,
            new_length: 1,
        }),
{
}

/// A parser is told where a change starts, where it ended before and where it ends now.
/// What changes nothing has no place and no length.
pub proof fn law_edits_tell_both_ends(edit: InputEdit, diff: DiffModel)
    ensures
        describes(edit, diff) ==> {
            &&& edit.start_byte == diff.byte_index
            &&& edit.old_end_byte - edit.start_byte == diff.old_length
            &&& edit.new_end_byte - edit.start_byte == diff.new_length
            &&& edit.start_position.row == 0 && edit.start_position.column == 0
            &&& edit.old_end_position == edit.start_position
            &&& edit.new_end_position == edit.start_position
        },
        diff == no_change() <==> diff.byte_index == 0 && diff.old_length == 0 && diff.new_length
            == 0,
{
}

} // verus!
