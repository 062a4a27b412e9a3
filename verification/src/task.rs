//! What becomes of a buffer when work in the background is done.

use ropey::Rope;
use vstd::prelude::*;

use crate::buffer::{Buffer, BufferModel, ModifiedStatus};
use crate::cursor::{cluster_or_first, place_on_cluster, within, Cursor, CursorModel};
use crate::grapheme::{
    cluster_ends, is_cluster, lemma_cluster_ends, next_boundary, next_grapheme_boundary,
    prev_boundary, prev_grapheme_boundary,
};
use crate::lines::{
    ends_line, lemma_first_line, lemma_line_bounds, lemma_line_contains, lemma_line_of_contains,
    lemma_line_start, line_count, line_end, line_of, line_start,
};
use crate::rope::contents;
use crate::utf8::{lemma_byte_len_bounds, storable};

verus! {

/// What work in the background has produced.
pub enum BufferTask<P> {
    /// A text was written to the file of the buffer.
    SaveFile { text: Rope },
    /// A parser has come to an end.
    ParseSyntax(P),
}

/// The smaller of two numbers.
pub open spec fn smaller(a: int, b: int) -> int {
    if a <= b {
        a
    } else {
        b
    }
}

/// The place in a new text that has the line and the distance from its start in
/// common with a place in the old one, as far as the new text has them.
pub open spec fn same_place(old_text: Seq<char>, new_text: Seq<char>, index: int) -> int {
    let line = line_of(old_text, index);
    let offset = index - line_start(old_text, line);
    let new_line = smaller(line, line_count(new_text) - 1);
    let length = line_end(new_text, new_line) - line_start(new_text, new_line);
    let last = if length >= 1 {
        length - 1
    } else {
        0
    };
    line_start(new_text, new_line) + smaller(offset, last)
}

/// The cursor on the cluster that ends next behind `index`.
pub open spec fn around(text: Seq<char>, index: int) -> CursorModel {
    let end = next_boundary(text, index);
    let (start, end) = cluster_or_first(prev_boundary(text, end), end);
    CursorModel { start, end, column: None, select: None }
}

/// Whether a cursor in a new text is where one at `index` was in the old: on a cluster,
/// if there is text; on the same line, or the last one if there are fewer; and over the
/// place with the same distance from the start of it, or the last one if it is shorter.
/// A line without a character has no place for it.
pub open spec fn keeps_place(
    old_text: Seq<char>,
    new_text: Seq<char>,
    index: int,
    cursor: CursorModel,
) -> bool {
    let old_line = line_of(old_text, index);
    let line = smaller(old_line, line_count(new_text) - 1);
    &&& new_text.len() == 0 ==> cursor.start == 0 && cursor.end == 1
    &&& new_text.len() > 0 ==> is_cluster(new_text, cursor.start, cursor.end)
    &&& line_start(new_text, line) < line_end(new_text, line) ==> {
        &&& line_of(new_text, cursor.start) == line
        &&& cursor.start <= same_place(old_text, new_text, index) < cursor.end
        &&& 0 <= cursor.start - line_start(new_text, line) <= index - line_start(
            old_text,
            old_line,
        )
    }
}

/// The buffer with the text that was written to its file.
pub open spec fn saved(buffer: BufferModel, text: Seq<char>) -> BufferModel {
    BufferModel {
        text,
        modified: ModifiedStatus::Unchanged,
        cursor: around(text, same_place(buffer.text, text, buffer.cursor.start)),
        ..buffer
    }
}

impl Buffer {
    /// The cursor for a text that takes the place of that of the buffer.
    fn cursor_in(&self, new_text: &Rope) -> (cursor: Cursor)
        requires
            self@.valid(),
            storable(contents(*new_text)),
        ensures
            cursor@ == around(
                contents(*new_text),
                same_place(self@.text, contents(*new_text), self@.cursor.start),
            ),
            within(cursor@, contents(*new_text)),
            keeps_place(self@.text, contents(*new_text), self@.cursor.start, cursor@),
    {
        let ghost old_chars = self@.text;
        let ghost chars = contents(*new_text);
        proof {
            lemma_byte_len_bounds(old_chars);
            lemma_first_line(old_chars);
            lemma_line_of_contains(old_chars, self@.cursor.start);
            lemma_byte_len_bounds(chars);
            lemma_first_line(chars);
        }
        let current_line = self.text.char_to_line(self.cursor.range.start);
        let current_line_offset = self.cursor.range.start - self.text.line_to_char(current_line);
        let last_line = new_text.len_lines().saturating_sub(1);
        let new_line = if current_line <= last_line {
            current_line
        } else {
            last_line
        };
        proof {
            lemma_line_bounds(chars, new_line as int);
        }
        let line_start = new_text.line_to_char(new_line);
        let last_offset = (new_text.line_to_char(new_line + 1) - line_start).saturating_sub(1);
        let new_line_offset = if current_line_offset <= last_offset {
            current_line_offset
        } else {
            last_offset
        };
        let place = line_start + new_line_offset;
        let end = next_grapheme_boundary(new_text, place);
        let start = prev_grapheme_boundary(new_text, end);
        proof {
            if chars.len() > 0 {
                assert(place < chars.len() ==> cluster_ends(chars, place as int, end as int));
                lemma_cluster_ends(chars, start as int, end as int);
            }
            if line_start < line_end(chars, new_line as int) {
                lemma_line_start(chars, new_line as int);
                assert(line_start > 0 ==> ends_line(chars, line_start - 1));
                lemma_line_contains(chars, new_line as int, start as int);
            }
        }
        let range = place_on_cluster(start, end);
        Cursor { range, visual_horizontal_offset: None, select: None }
    }

    /// Takes the product of work in the background. What a parser has produced is
    /// handed back: it is for the syntax tree.
    pub fn task_done<P, E>(&mut self, payload: Result<BufferTask<P>, E>) -> (result: Result<
        Option<P>,
        E,
    >)
        requires
            old(self)@.valid(),
            payload matches Ok(BufferTask::SaveFile { text }) ==> storable(contents(text)),
        ensures
            final(self)@.valid(),
            match payload {
                Ok(BufferTask::SaveFile { text }) => {
                    &&& final(self)@ == saved(old(self)@, contents(text))
                    &&& keeps_place(
                        old(self)@.text,
                        contents(text),
                        old(self)@.cursor.start,
                        final(self)@.cursor,
                    )
                    &&& result == Ok::<Option<P>, E>(None)
                },
                Ok(BufferTask::ParseSyntax(parsed)) => {
                    &&& final(self)@ == old(self)@
                    &&& result == Ok::<Option<P>, E>(Some(parsed))
                },
                Err(error) => {
                    &&& final(self)@ == old(self)@
                    &&& result == Err::<Option<P>, E>(error)
                },
            },
    {
        match payload {
            Ok(BufferTask::SaveFile { text: new_text }) => {
                self.cursor = self.cursor_in(&new_text);
                self.text = new_text;
                self.has_unsaved_changes = ModifiedStatus::Unchanged;
                Ok(None)
            },
            Ok(BufferTask::ParseSyntax(parsed)) => Ok(Some(parsed)),
            Err(error) => Err(error),
        }
    }
}

} // verus!
