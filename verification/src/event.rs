//! What keys do.

use std::time::Instant;
use vstd::prelude::*;

use crate::buffer::{asks_to_save, saving, Buffer, BufferModel, SaveRequest};
use crate::cursor::{
    down, down_n, end_of_buffer, end_of_line, left, right, right_n, start_of_buffer, start_of_line,
    up, up_n, CursorModel,
};
use crate::diff::{describes, no_change, DiffModel, InputEdit, OpaqueDiff};
use crate::edit::{
    can_yank, deleted, deleted_diff, inserted, inserted_char_diff, inserted_diff, line_deleted,
    line_deleted_diff, newline_ended, selection_copied, selection_cut, selection_cut_diff,
    selection_within, with, yanked, yanked_diff,
};
use crate::geometry::Rect;
use crate::grapheme::TAB_WIDTH;
use crate::key::Key;
use crate::scroll::centered;
use crate::utf8::{lemma_byte_len_bounds, lemma_byte_len_push, storable};

verus! {

/// Whether a tab key puts in spaces.
pub const DISABLE_TABS: bool = false;

/// What a key asks of the world around the buffer.
pub struct EventOutcome {
    /// A text to be written.
    pub save: Option<SaveRequest>,
    /// A change that a parser has to be told of.
    pub edit: Option<InputEdit>,
}

/// A buffer with another cursor.
pub open spec fn with_cursor(buffer: BufferModel, cursor: CursorModel) -> BufferModel {
    BufferModel { cursor, ..buffer }
}

/// A run of spaces.
pub open spec fn spaces(count: int) -> Seq<char> {
    Seq::new(count as nat, |i: int| ' ')
}

/// What a key does without a change of the text, in a frame of the given height.
#[verifier::opaque]
pub open spec fn moved(
    buffer: BufferModel,
    key: Key,
    height: int,
    time: Instant,
) -> BufferModel {
    let text = buffer.text;
    let cursor = buffer.cursor;
    match key {
        Key::Ctrl('p') | Key::Up => with_cursor(buffer, up(text, cursor)),
        Key::Ctrl('n') | Key::Down => with_cursor(buffer, down(text, cursor)),
        Key::Ctrl('b') | Key::Left => with_cursor(buffer, left(text, cursor)),
        Key::Ctrl('f') | Key::Right => with_cursor(buffer, right(text, cursor)),
        Key::Ctrl('v') | Key::PageDown => with_cursor(
            buffer,
            down_n(text, cursor, (height - 1) as nat),
        ),
        Key::Alt('v') | Key::PageUp => with_cursor(
            buffer,
            up_n(text, cursor, (height - 1) as nat),
        ),
        Key::Ctrl('a') | Key::Home => with_cursor(buffer, start_of_line(text, cursor)),
        Key::Ctrl('e') | Key::End => with_cursor(buffer, end_of_line(text, cursor)),
        Key::Alt('<') => with_cursor(buffer, start_of_buffer(text, cursor)),
        Key::Alt('>') => with_cursor(buffer, end_of_buffer(text, cursor)),
        Key::Ctrl('l') => centered(buffer, height),
        Key::Null => with_cursor(
            buffer,
            CursorModel { select: Some(cursor.start), ..cursor },
        ),
        Key::Ctrl('g') => with_cursor(buffer, CursorModel { select: None, ..cursor }),
        Key::Alt('s') => saving(buffer, time),
        _ => buffer,
    }
}

/// A character put in, in a text that ends in a line feed.
pub open spec fn typed(buffer: BufferModel, character: char) -> BufferModel {
    let inserted = inserted(buffer, seq![character]);
    BufferModel { text: newline_ended(inserted.text), ..inserted }
}

/// How a key changes the text.
#[verifier::opaque]
pub open spec fn edited(buffer: BufferModel, key: Key) -> BufferModel {
    match key {
        Key::Ctrl('d') | Key::Delete => deleted(buffer),
        Key::Ctrl('k') => line_deleted(buffer),
        Key::Ctrl('y') => yanked(buffer),
        Key::Backspace => if buffer.cursor.start > 0 {
            deleted(with_cursor(buffer, left(buffer.text, buffer.cursor)))
        } else {
            buffer
        },
        Key::Alt('w') => selection_copied(buffer),
        Key::Ctrl('w') => selection_cut(buffer),
        Key::Char(character) => if character == '\t' && DISABLE_TABS {
            let indented = inserted(buffer, spaces(TAB_WIDTH as int));
            with_cursor(indented, right_n(indented.text, indented.cursor, TAB_WIDTH as nat))
        } else {
            let typed = typed(buffer, character);
            if character == '\n' {
                with_cursor(typed, start_of_line(typed.text, down(typed.text, typed.cursor)))
            } else {
                with_cursor(typed, right(typed.text, typed.cursor))
            }
        },
        _ => buffer,
    }
}

/// The change that is told of what [`edited`] does. A line feed that is added at
/// the end of the text is not told of.
#[verifier::opaque]
pub open spec fn edited_diff(buffer: BufferModel, key: Key) -> DiffModel {
    match key {
        Key::Ctrl('d') | Key::Delete => deleted_diff(buffer),
        Key::Ctrl('k') => line_deleted_diff(buffer),
        Key::Ctrl('y') => yanked_diff(buffer),
        Key::Backspace => if buffer.cursor.start > 0 {
            deleted_diff(with_cursor(buffer, left(buffer.text, buffer.cursor)))
        } else {
            no_change()
        },
        Key::Ctrl('w') => selection_cut_diff(buffer),
        Key::Char(character) => if character == '\t' && DISABLE_TABS {
            inserted_diff(buffer, spaces(TAB_WIDTH as int))
        } else {
            inserted_char_diff(buffer)
        },
        _ => no_change(),
    }
}

/// Whether a key moves by a page, which is one line less than the frame has.
pub open spec fn is_page_key(key: Key) -> bool {
    key == Key::Ctrl('v') || key == Key::PageDown || key == Key::Alt('v') || key == Key::PageUp
}

/// Whether a key works on the selection.
pub open spec fn is_selection_key(key: Key) -> bool {
    key == Key::Alt('w') || key == Key::Ctrl('w')
}

/// Whether the text can be held with what a key puts in.
pub open spec fn has_room(buffer: BufferModel, key: Key) -> bool {
    match key {
        Key::Ctrl('y') => can_yank(buffer),
        Key::Char(character) => if character == '\t' && DISABLE_TABS {
            storable(with(buffer.text, buffer.cursor.start, spaces(TAB_WIDTH as int)))
        } else {
            storable(newline_ended(with(buffer.text, buffer.cursor.start, seq![character])))
        },
        _ => true,
    }
}

/// Whether a key can be handled: pages have a height, what is copied or cut is
/// there, and there is room for what is put in.
pub open spec fn can_handle(buffer: BufferModel, key: Key, height: int) -> bool {
    &&& is_page_key(key) ==> height > 0
    &&& is_selection_key(key) ==> selection_within(buffer)
    &&& has_room(buffer, key)
}

/// What a key does.
pub open spec fn handled(
    buffer: BufferModel,
    key: Key,
    height: int,
    time: Instant,
) -> BufferModel {
    edited(moved(buffer, key, height, time), key)
}

/// No key does both: one that moves changes nothing, and one that changes the text
/// moves nothing before it does so.
proof fn lemma_moves_or_edits(buffer: BufferModel, key: Key, height: int, time: Instant)
    ensures
        moved(buffer, key, height, time) == buffer || (edited(
            moved(buffer, key, height, time),
            key,
        ) == moved(buffer, key, height, time) && edited_diff(
            moved(buffer, key, height, time),
            key,
        ) == no_change() && edited(buffer, key) == buffer && edited_diff(buffer, key)
            == no_change()),
        moved(buffer, key, height, time).text == buffer.text,
        handled(buffer, key, height, time).language == buffer.language,
        is_selection_key(key) ==> moved(buffer, key, height, time) == buffer,
        has_room(buffer, key) ==> has_room(moved(buffer, key, height, time), key),
{
    reveal(moved);
    reveal(edited);
    reveal(edited_diff);
}

/// Makes a run of spaces.
fn make_spaces(count: usize) -> (characters: Vec<char>)
    ensures
        characters@ == spaces(count as int),
{
    let mut characters: Vec<char> = Vec::new();
    while characters.len() < count
        invariant
            characters.len() <= count,
            characters@ == spaces(characters.len() as int),
        decreases count - characters.len(),
    {
        characters.push(' ');
    }
    characters
}

impl Buffer {
    /// Moves down so many times.
    fn page_down(&mut self, lines: usize)
        requires
            old(self)@.valid(),
        ensures
            final(self)@ == with_cursor(
                old(self)@,
                down_n(old(self)@.text, old(self)@.cursor, lines as nat),
            ),
            final(self)@.valid(),
    {
        let ghost before = self@;
        let mut i: usize = 0;
        while i < lines
            invariant
                i <= lines,
                self@.valid(),
                self@ == with_cursor(before, down_n(before.text, before.cursor, i as nat)),
            decreases lines - i,
        {
            self.cursor.move_down(&self.text);
            i = i + 1;
        }
    }

    /// Moves up so many times.
    fn page_up(&mut self, lines: usize)
        requires
            old(self)@.valid(),
        ensures
            final(self)@ == with_cursor(
                old(self)@,
                up_n(old(self)@.text, old(self)@.cursor, lines as nat),
            ),
            final(self)@.valid(),
    {
        let ghost before = self@;
        let mut i: usize = 0;
        while i < lines
            invariant
                i <= lines,
                self@.valid(),
                self@ == with_cursor(before, up_n(before.text, before.cursor, i as nat)),
            decreases lines - i,
        {
            self.cursor.move_up(&self.text);
            i = i + 1;
        }
    }

    /// Does what a key does without a change of the text.
    fn handle_motion(&mut self, key: Key, frame: &Rect, time: Instant) -> (save: Option<
        SaveRequest,
    >)
        requires
            old(self)@.valid(),
            is_page_key(key) ==> frame.size.height > 0,
        ensures
            final(self)@ == moved(old(self)@, key, frame.size.height as int, time),
            final(self)@.valid(),
            key == Key::Alt('s') ==> asks_to_save(save, old(self)@),
            key != Key::Alt('s') ==> save is None,
    {
        proof {
            reveal(moved);
        }
        match key {
            Key::Ctrl('p') | Key::Up => self.cursor.move_up(&self.text),
            Key::Ctrl('n') | Key::Down => self.cursor.move_down(&self.text),
            Key::Ctrl('b') | Key::Left => self.cursor.move_left(&self.text),
            Key::Ctrl('f') | Key::Right => self.cursor.move_right(&self.text),
            Key::Ctrl('v') | Key::PageDown => self.page_down(frame.size.height - 1),
            Key::Alt('v') | Key::PageUp => self.page_up(frame.size.height - 1),
            Key::Ctrl('a') | Key::Home => self.cursor.move_to_start_of_line(&self.text),
            Key::Ctrl('e') | Key::End => self.cursor.move_to_end_of_line(&self.text),
            Key::Alt('<') => self.cursor.move_to_start_of_buffer(&self.text),
            Key::Alt('>') => self.cursor.move_to_end_of_buffer(&self.text),
            Key::Ctrl('l') => self.center_visual_cursor(frame),
            Key::Null => self.cursor.select = Some(self.cursor.range.start),
            Key::Ctrl('g') => self.cursor.select = None,
            Key::Alt('s') => {
                return self.spawn_save_file(time);
            },
            _ => {},
        }
        None
    }

    /// Changes the text as a key says.
    fn handle_edit(&mut self, key: Key) -> (diff: OpaqueDiff)
        requires
            old(self)@.valid(),
            is_selection_key(key) ==> selection_within(old(self)@),
            has_room(old(self)@, key),
        ensures
            final(self)@ == edited(old(self)@, key),
            diff@ == edited_diff(old(self)@, key),
            final(self)@.valid(),
            diff@.countable(),
    {
        proof {
            reveal(edited);
            reveal(edited_diff);
            lemma_byte_len_bounds(self@.text);
        }
        match key {
            Key::Ctrl('d') | Key::Delete => self.delete(),
            Key::Ctrl('k') => self.delete_line(),
            Key::Ctrl('y') => self.yank_line(),
            Key::Backspace => {
                if self.cursor.range.start > 0 {
                    self.cursor.move_left(&self.text);
                    self.delete()
                } else {
                    OpaqueDiff::no_diff()
                }
            },
            Key::Alt('w') => self.copy_selection(),
            Key::Ctrl('w') => self.cut_selection(),
            Key::Char('\t') if DISABLE_TABS => {
                let diff = self.insert_characters(&make_spaces(TAB_WIDTH));
                self.cursor.move_right_n(&self.text, TAB_WIDTH);
                diff
            },
            Key::Char(character) => {
                proof {
                    lemma_byte_len_push(
                        with(self@.text, self@.cursor.start, seq![character]),
                        '\n',
                    );
                }
                let diff = self.insert_char(character);
                self.ensure_trailing_newline_with_content();
                if character == '\n' {
                    self.cursor.move_down(&self.text);
                    self.cursor.move_to_start_of_line(&self.text);
                } else {
                    self.cursor.move_right(&self.text);
                }
                diff
            },
            _ => OpaqueDiff::no_diff(),
        }
    }

    /// Does what a key does, in a frame and at a time, and says what has to be
    /// done elsewhere.
    pub fn handle_event(&mut self, key: Key, frame: &Rect, time: Instant) -> (outcome: EventOutcome)
        requires
            old(self)@.valid(),
            can_handle(old(self)@, key, frame.size.height as int),
        ensures
            final(self)@ == handled(old(self)@, key, frame.size.height as int, time),
            final(self)@.valid(),
            key == Key::Alt('s') ==> asks_to_save(outcome.save, old(self)@),
            key != Key::Alt('s') ==> outcome.save is None,
            outcome.edit is Some <==> edited_diff(old(self)@, key) != no_change()
                && old(self)@.language,
            outcome.edit matches Some(edit) ==> describes(edit, edited_diff(old(self)@, key)),
    {
        proof {
            lemma_moves_or_edits(self@, key, frame.size.height as int, time);
        }
        let save = self.handle_motion(key, frame, time);
        let diff = self.handle_edit(key);
        let edit = if !diff.is_empty() && self.mode.language {
            Some(InputEdit::of(&diff))
        } else {
            None
        };
        EventOutcome { save, edit }
    }
}

} // verus!
