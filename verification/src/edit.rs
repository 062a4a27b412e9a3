//! The edits of a buffer.

use vstd::prelude::*;
use vstd::string::*;

use crate::buffer::{Buffer, BufferModel, ModifiedStatus};
use crate::cursor::{cluster_or_first, place_on_cluster, selected, within, CursorModel};
use crate::diff::{no_change, DiffModel, OpaqueDiff};
use crate::grapheme::{
    next_boundary, next_grapheme_boundary, prev_boundary, prev_grapheme_boundary,
};
use crate::lines::{
    lemma_first_line, lemma_line_bounds, lemma_line_of_contains, line_count, line_end, line_of,
    line_start,
};
use crate::rope::{
    chunks, contents, copy_range, joined, lemma_joined_push, lemma_joined_split, remove, views,
};
use crate::utf8::{
    byte_len, byte_offset, lemma_byte_len_add, lemma_byte_len_bounds, lemma_byte_len_push,
    lemma_byte_len_split, storable,
};

verus! {

/// A text with the characters from `start` up to `end` taken out.
pub open spec fn without(text: Seq<char>, start: int, end: int) -> Seq<char> {
    text.take(start) + text.skip(end)
}

/// A text with characters put in before the one at `index`.
pub open spec fn with(text: Seq<char>, index: int, added: Seq<char>) -> Seq<char> {
    text.take(index) + added + text.skip(index)
}

/// A cursor put on the cluster at `index`, or on the first one if there is none.
pub open spec fn settled(text: Seq<char>, cursor: CursorModel, index: int) -> CursorModel {
    let (start, end) = cluster_or_first(index, next_boundary(text, index));
    CursorModel { start, end, ..cursor }
}

/// Characters are put in at the cursor, which stays.
pub open spec fn inserted(buffer: BufferModel, added: Seq<char>) -> BufferModel {
    BufferModel {
        text: with(buffer.text, buffer.cursor.start, added),
        modified: ModifiedStatus::Changed,
        ..buffer
    }
}

/// The change of [`inserted`] on characters, in bytes.
pub open spec fn inserted_diff(buffer: BufferModel, added: Seq<char>) -> DiffModel {
    DiffModel {
        byte_index: byte_offset(buffer.text, buffer.cursor.start),
        old_length: 0,
        new_length: byte_len(added),
    }
}

/// The change of one inserted character. It is counted in characters.
pub open spec fn inserted_char_diff(buffer: BufferModel) -> DiffModel {
    DiffModel { byte_index: buffer.cursor.start, old_length: 0, new_length: 1 }
}

/// The characters under the cursor are taken out. The cursor is then on those
/// behind them, or, at the end of the text, back at its start.
pub open spec fn deleted(buffer: BufferModel) -> BufferModel {
    if buffer.text.len() == 0 {
        buffer
    } else {
        let text = without(buffer.text, buffer.cursor.start, buffer.cursor.end);
        BufferModel {
            text,
            modified: ModifiedStatus::Changed,
            cursor: settled(text, buffer.cursor, buffer.cursor.start),
            ..buffer
        }
    }
}

/// The change of [`deleted`], counted in characters.
pub open spec fn deleted_diff(buffer: BufferModel) -> DiffModel {
    if buffer.text.len() == 0 {
        no_change()
    } else {
        DiffModel {
            byte_index: buffer.cursor.start,
            old_length: buffer.cursor.end - buffer.cursor.start,
            new_length: 0,
        }
    }
}

/// The line that the cursor is put on when `line` is gone: the one that took its
/// place, but not the empty one behind the last line break.
pub open spec fn line_after_deletion(text: Seq<char>, line: int) -> int {
    let last = if line_count(text) >= 2 {
        line_count(text) - 2
    } else {
        0
    };
    if line <= last {
        line
    } else {
        last
    }
}

/// The line under the cursor is cut.
pub open spec fn line_deleted(buffer: BufferModel) -> BufferModel {
    if buffer.text.len() == 0 {
        buffer
    } else {
        let line = line_of(buffer.text, buffer.cursor.start);
        let start = line_start(buffer.text, line);
        let end = line_end(buffer.text, line);
        let text = without(buffer.text, start, end);
        let cursor = settled(
            text,
            buffer.cursor,
            line_start(text, line_after_deletion(text, line)),
        );
        BufferModel {
            text,
            yanked: Some(buffer.text.subrange(start, end)),
            modified: ModifiedStatus::Changed,
            cursor: CursorModel { column: None, ..cursor },
            ..buffer
        }
    }
}

/// The change of [`line_deleted`], counted in characters.
pub open spec fn line_deleted_diff(buffer: BufferModel) -> DiffModel {
    if buffer.text.len() == 0 {
        no_change()
    } else {
        let line = line_of(buffer.text, buffer.cursor.start);
        DiffModel {
            byte_index: line_start(buffer.text, line),
            old_length: line_end(buffer.text, line) - line_start(buffer.text, line),
            new_length: 0,
        }
    }
}

/// Characters are put in at the cursor, which moves behind them.
pub open spec fn pasted(buffer: BufferModel, added: Seq<char>) -> BufferModel {
    let text = with(buffer.text, buffer.cursor.start, added);
    let behind = buffer.cursor.start + added.len();
    BufferModel {
        text,
        modified: ModifiedStatus::Changed,
        cursor: if added.len() == 0 {
            buffer.cursor
        } else {
            CursorModel { start: behind, end: next_boundary(text, behind), ..buffer.cursor }
        },
        ..buffer
    }
}

/// What was cut or copied is pasted.
pub open spec fn yanked(buffer: BufferModel) -> BufferModel {
    match buffer.yanked {
        None => buffer,
        Some(clipboard) => pasted(buffer, clipboard),
    }
}

/// Whether there is room for what was cut or copied.
pub open spec fn can_yank(buffer: BufferModel) -> bool {
    buffer.yanked matches Some(clipboard) ==> storable(
        with(buffer.text, buffer.cursor.start, clipboard),
    )
}

/// The change of [`yanked`]: its place counted in characters, its length in bytes.
pub open spec fn yanked_diff(buffer: BufferModel) -> DiffModel {
    match buffer.yanked {
        None => no_change(),
        Some(clipboard) => DiffModel {
            byte_index: buffer.cursor.start,
            old_length: 0,
            new_length: byte_len(clipboard),
        },
    }
}

/// Whether the selection is within the text.
pub open spec fn selection_within(buffer: BufferModel) -> bool {
    selected(buffer.cursor).1 <= buffer.text.len()
}

/// The selection is copied, and is none any more.
pub open spec fn selection_copied(buffer: BufferModel) -> BufferModel {
    let (start, end) = selected(buffer.cursor);
    BufferModel {
        yanked: Some(buffer.text.subrange(start, end)),
        cursor: CursorModel { select: None, ..buffer.cursor },
        ..buffer
    }
}

/// The selection is cut. The cursor stays where it is, as far as there is text.
pub open spec fn selection_cut(buffer: BufferModel) -> BufferModel {
    let (start, end) = selected(buffer.cursor);
    let text = without(buffer.text, start, end);
    let last = prev_boundary(text, text.len() as int);
    let index = if buffer.cursor.start <= last {
        buffer.cursor.start
    } else {
        last
    };
    BufferModel {
        text,
        yanked: Some(buffer.text.subrange(start, end)),
        modified: ModifiedStatus::Changed,
        cursor: CursorModel {
            column: None,
            select: None,
            ..settled(text, buffer.cursor, index)
        },
        ..buffer
    }
}

/// The change of [`selection_cut`], counted in characters.
pub open spec fn selection_cut_diff(buffer: BufferModel) -> DiffModel {
    let (start, end) = selected(buffer.cursor);
    DiffModel { byte_index: start, old_length: end - start, new_length: 0 }
}

/// A text that ends in a line feed: one is added where it does not.
pub open spec fn newline_ended(text: Seq<char>) -> Seq<char> {
    if text.len() == 0 || text.last() != '\n' {
        text.push('\n')
    } else {
        text
    }
}

/// The buffer with a text that ends in a line feed.
pub open spec fn newline_ensured(buffer: BufferModel) -> BufferModel {
    BufferModel { text: newline_ended(buffer.text), ..buffer }
}

proof fn lemma_with_bytes(text: Seq<char>, index: int, added: Seq<char>)
    requires
        0 <= index <= text.len(),
    ensures
        byte_len(with(text, index, added)) == byte_len(text) + byte_len(added),
        with(text, index, added).len() == text.len() + added.len(),
{
    lemma_byte_len_split(text, index);
    lemma_byte_len_add(text.take(index), added);
    lemma_byte_len_add(text.take(index) + added, text.skip(index));
}

proof fn lemma_without_bytes(text: Seq<char>, start: int, end: int)
    requires
        0 <= start <= end <= text.len(),
    ensures
        byte_len(without(text, start, end)) <= byte_len(text),
        byte_len(text.subrange(start, end)) <= byte_len(text),
        without(text, start, end).len() == text.len() - (end - start),
{
    lemma_byte_len_split(text, start);
    lemma_byte_len_split(text.skip(start), end - start);
    assert(text.skip(start).skip(end - start) =~= text.skip(end));
    assert(text.skip(start).take(end - start) =~= text.subrange(start, end));
    lemma_byte_len_add(text.take(start), text.skip(end));
    lemma_byte_len_bounds(text.take(start));
    lemma_byte_len_bounds(text.skip(end));
}

impl Buffer {
    /// Puts the cursor on the cluster at `index`, or on the first one if there is
    /// none.
    fn settle_cursor(&mut self, index: usize)
        requires
            storable(contents(old(self).text)),
            index <= contents(old(self).text).len(),
        ensures
            *final(self) == (Buffer { cursor: final(self).cursor, ..*old(self) }),
            final(self).cursor@ == settled(
                contents(old(self).text),
                old(self).cursor@,
                index as int,
            ),
            within(final(self).cursor@, contents(old(self).text)),
    {
        let end = next_grapheme_boundary(&self.text, index);
        self.cursor.range = place_on_cluster(index, end);
    }

    /// Puts characters in at the cursor.
    pub fn insert_characters(&mut self, characters: &Vec<char>) -> (diff: OpaqueDiff)
        requires
            old(self)@.valid(),
            storable(with(old(self)@.text, old(self)@.cursor.start, characters@)),
        ensures
            final(self)@ == inserted(old(self)@, characters@),
            diff@ == inserted_diff(old(self)@, characters@),
            diff@.countable(),
            final(self)@.valid(),
    {
        let ghost before = self@;
        let ghost start = self@.cursor.start;
        self.has_unsaved_changes = ModifiedStatus::Changed;
        let mut num_bytes: usize = 0;
        let mut offset: usize = 0;
        proof {
            lemma_with_bytes(before.text, start, characters@);
            lemma_byte_len_bounds(before.text);
            assert(characters@.take(0) =~= Seq::<char>::empty());
            assert(with(before.text, start, characters@.take(0)) =~= before.text);
        }
        while offset < characters.len()
            invariant
                offset <= characters.len(),
                before.valid(),
                start == before.cursor.start,
                start <= before.text.len(),
                storable(with(before.text, start, characters@)),
                byte_len(with(before.text, start, characters@)) == byte_len(before.text)
                    + byte_len(characters@),
                num_bytes == byte_len(characters@.take(offset as int)),
                self@ == inserted(before, characters@.take(offset as int)),
            decreases characters.len() - offset,
        {
            let character = characters[offset];
            let ghost done = characters@.take(offset as int);
            proof {
                assert(characters@.take(offset + 1) =~= done.push(character));
                lemma_byte_len_push(done, character);
                lemma_with_bytes(before.text, start, done);
                lemma_byte_len_split(characters@, offset + 1);
                lemma_byte_len_bounds(done);
                lemma_byte_len_bounds(before.text);
                assert(with(before.text, start, done).insert(start + offset, character)
                    =~= with(before.text, start, done.push(character)));
            }
            self.text.insert_char(self.cursor.range.start + offset, character);
            num_bytes = num_bytes + character.len_utf8();
            offset = offset + 1;
        }
        proof {
            assert(characters@.take(offset as int) =~= characters@);
            lemma_byte_len_split(before.text, start);
            assert(with(before.text, start, characters@).take(start) =~= before.text.take(start));
        }
        OpaqueDiff::new(self.text.char_to_byte(self.cursor.range.start), 0, num_bytes)
    }

    /// Puts a character in at the cursor.
    pub fn insert_char(&mut self, character: char) -> (diff: OpaqueDiff)
        requires
            old(self)@.valid(),
            storable(with(old(self)@.text, old(self)@.cursor.start, seq![character])),
        ensures
            final(self)@ == inserted(old(self)@, seq![character]),
            diff@ == inserted_char_diff(old(self)@),
            diff@.countable(),
            final(self)@.valid(),
    {
        let ghost before = self@;
        proof {
            lemma_with_bytes(before.text, before.cursor.start, seq![character]);
            lemma_byte_len_bounds(before.text);
            lemma_byte_len_push(Seq::empty(), character);
            assert(Seq::<char>::empty().push(character) =~= seq![character]);
            assert(before.text.insert(before.cursor.start, character) =~= with(
                before.text,
                before.cursor.start,
                seq![character],
            ));
        }
        self.has_unsaved_changes = ModifiedStatus::Changed;
        self.text.insert_char(self.cursor.range.start, character);
        OpaqueDiff::new(self.cursor.range.start, 0, 1)
    }

    /// Takes out the characters under the cursor.
    pub fn delete(&mut self) -> (diff: OpaqueDiff)
        requires
            old(self)@.valid(),
        ensures
            final(self)@ == deleted(old(self)@),
            diff@ == deleted_diff(old(self)@),
            diff@.countable(),
            final(self)@.valid(),
    {
        if self.text.len_chars() == 0 {
            return OpaqueDiff::no_diff();
        }
        let start = self.cursor.range.start;
        let end = self.cursor.range.end;
        proof {
            lemma_without_bytes(self@.text, start as int, end as int);
        }
        self.has_unsaved_changes = ModifiedStatus::Changed;
        remove(&mut self.text, start, end);
        let diff = OpaqueDiff::new(start, end - start, 0);
        self.settle_cursor(start);
        diff
    }

    /// Cuts the line under the cursor.
    pub fn delete_line(&mut self) -> (diff: OpaqueDiff)
        requires
            old(self)@.valid(),
        ensures
            final(self)@ == line_deleted(old(self)@),
            diff@ == line_deleted_diff(old(self)@),
            diff@.countable(),
            final(self)@.valid(),
    {
        if self.text.len_chars() == 0 {
            return OpaqueDiff::no_diff();
        }
        let ghost before = self@;
        proof {
            lemma_byte_len_bounds(before.text);
            lemma_first_line(before.text);
            lemma_line_of_contains(before.text, before.cursor.start);
            lemma_line_bounds(before.text, line_of(before.text, before.cursor.start));
        }
        self.has_unsaved_changes = ModifiedStatus::Changed;
        let line_index = self.text.char_to_line(self.cursor.range.start);
        let start = self.text.line_to_char(line_index);
        let end = self.text.line_to_char(line_index + 1);
        proof {
            lemma_without_bytes(before.text, start as int, end as int);
        }
        self.yanked_line = Some(copy_range(&self.text, start, end));
        remove(&mut self.text, start, end);
        let diff = OpaqueDiff::new(start, end - start, 0);
        let ghost text = contents(self.text);
        proof {
            lemma_byte_len_bounds(text);
            lemma_first_line(text);
        }
        let last = self.text.len_lines().saturating_sub(2);
        let line = if line_index <= last {
            line_index
        } else {
            last
        };
        proof {
            lemma_line_bounds(text, line as int);
        }
        let index = self.text.line_to_char(line);
        self.settle_cursor(index);
        self.cursor.visual_horizontal_offset = None;
        diff
    }

    /// Puts in what was last cut or copied.
    pub fn yank_line(&mut self) -> (diff: OpaqueDiff)
        requires
            old(self)@.valid(),
            can_yank(old(self)@),
        ensures
            final(self)@ == yanked(old(self)@),
            diff@ == yanked_diff(old(self)@),
            diff@.countable(),
            final(self)@.valid(),
    {
        let ghost before = self@;
        let ghost start = self@.cursor.start;
        let (pieces, num_bytes) = match &self.yanked_line {
            Some(clipboard) => (chunks(clipboard), clipboard.len_bytes()),
            None => {
                return OpaqueDiff::no_diff();
            },
        };
        let ghost all = views(pieces@);
        let ghost clipboard = joined(all);
        let diff = OpaqueDiff::new(self.cursor.range.start, 0, num_bytes);
        self.has_unsaved_changes = ModifiedStatus::Changed;
        let mut cursor_start = self.cursor.range.start;
        let mut i: usize = 0;
        proof {
            lemma_with_bytes(before.text, start, clipboard);
            assert(all.take(0) =~= Seq::<Seq<char>>::empty());
            assert(with(before.text, start, Seq::empty()) =~= before.text);
        }
        while i < pieces.len()
            invariant
                i <= pieces.len(),
                before.valid(),
                start == before.cursor.start,
                start <= before.text.len(),
                before.yanked == Some(clipboard),
                all == views(pieces@),
                clipboard == joined(all),
                forall|k: int| 0 <= k < pieces@.len() ==> (#[trigger] pieces@[k])@.len() > 0,
                storable(with(before.text, start, clipboard)),
                byte_len(with(before.text, start, clipboard)) == byte_len(before.text) + byte_len(
                    clipboard,
                ),
                cursor_start == start + joined(all.take(i as int)).len(),
                self@.valid(),
                self@ == pasted(before, joined(all.take(i as int))),
            decreases pieces.len() - i,
        {
            let ghost done = joined(all.take(i as int));
            let ghost chunk = all[i as int];
            proof {
                assert(all.take(i + 1) =~= all.take(i as int).push(chunk));
                lemma_joined_push(all.take(i as int), chunk);
                lemma_joined_split(all, i + 1);
                lemma_byte_len_add(joined(all.take(i + 1)), joined(all.skip(i + 1)));
                lemma_byte_len_bounds(joined(all.skip(i + 1)));
                lemma_byte_len_add(done, chunk);
                lemma_with_bytes(before.text, start, done);
                lemma_with_bytes(before.text, start, done + chunk);
                lemma_byte_len_bounds(with(before.text, start, done + chunk));
                let text = with(before.text, start, done);
                assert(text.take(start + done.len()) + chunk + text.skip(start + done.len())
                    =~= with(before.text, start, done + chunk));
            }
            self.text.insert(cursor_start, pieces[i].as_str());
            cursor_start = cursor_start + pieces[i].as_str().unicode_len();
            self.cursor.range = cursor_start..next_grapheme_boundary(&self.text, cursor_start);
            i = i + 1;
        }
        proof {
            assert(all.take(i as int) =~= all);
            lemma_byte_len_bounds(before.text);
        }
        diff
    }

    /// Copies the selection.
    pub fn copy_selection(&mut self) -> (diff: OpaqueDiff)
        requires
            old(self)@.valid(),
            selection_within(old(self)@),
        ensures
            final(self)@ == selection_copied(old(self)@),
            diff@ == no_change(),
            diff@.countable(),
            final(self)@.valid(),
    {
        let selection = self.cursor.selection();
        proof {
            lemma_without_bytes(self@.text, selection.start as int, selection.end as int);
        }
        self.yanked_line = Some(copy_range(&self.text, selection.start, selection.end));
        self.cursor.select = None;
        OpaqueDiff::no_diff()
    }

    /// Cuts the selection.
    pub fn cut_selection(&mut self) -> (diff: OpaqueDiff)
        requires
            old(self)@.valid(),
            selection_within(old(self)@),
        ensures
            final(self)@ == selection_cut(old(self)@),
            diff@ == selection_cut_diff(old(self)@),
            diff@.countable(),
            final(self)@.valid(),
    {
        let selection = self.cursor.selection();
        proof {
            lemma_without_bytes(self@.text, selection.start as int, selection.end as int);
        }
        let diff = OpaqueDiff::new(selection.start, selection.end - selection.start, 0);
        self.has_unsaved_changes = ModifiedStatus::Changed;
        self.yanked_line = Some(copy_range(&self.text, selection.start, selection.end));
        remove(&mut self.text, selection.start, selection.end);
        self.cursor.select = None;
        let last = prev_grapheme_boundary(&self.text, self.text.len_chars());
        let index = if self.cursor.range.start <= last {
            self.cursor.range.start
        } else {
            last
        };
        self.settle_cursor(index);
        self.cursor.visual_horizontal_offset = None;
        diff
    }

    /// Makes the text end in a line feed.
    pub fn ensure_trailing_newline_with_content(&mut self)
        requires
            old(self)@.valid(),
            storable(newline_ended(old(self)@.text)),
        ensures
            final(self)@ == newline_ensured(old(self)@),
            final(self)@.valid(),
    {
        let length = self.text.len_chars();
        if length == 0 || self.text.char(length - 1) != '\n' {
            proof {
                lemma_byte_len_push(self@.text, '\n');
                assert(self@.text.insert(length as int, '\n') =~= self@.text.push('\n'));
            }
            self.text.insert_char(length, '\n');
        }
    }
}

} // verus!
