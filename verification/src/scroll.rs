//! Which part of the text is in view.

use vstd::prelude::*;

use crate::buffer::{Buffer, BufferModel};
use crate::geometry::Rect;
use crate::lines::{lemma_first_line, lemma_line_of_contains, line_of};
use crate::utf8::lemma_byte_len_bounds;

verus! {

/// The line that the cursor is on.
pub open spec fn cursor_line(buffer: BufferModel) -> int {
    line_of(buffer.text, buffer.cursor.start)
}

/// The buffer scrolled no further than it takes to have the cursor in view.
pub open spec fn scrolled(buffer: BufferModel, height: int) -> BufferModel {
    let line = cursor_line(buffer);
    let first_line = if line < buffer.first_line {
        line
    } else if line > buffer.first_line + height - 1 {
        line - height + 1
    } else {
        buffer.first_line
    };
    BufferModel { first_line, ..buffer }
}

/// The buffer scrolled so that the cursor is in the middle, or, where it is
/// there, in the first line in view. Near the start of the text nothing moves.
pub open spec fn centered(buffer: BufferModel, height: int) -> BufferModel {
    let line = cursor_line(buffer);
    let middle = line - height / 2;
    let first_line = if middle < 0 {
        buffer.first_line
    } else if buffer.first_line != middle {
        middle
    } else {
        line
    };
    BufferModel { first_line, ..buffer }
}

impl Buffer {
    /// The line that the cursor is on.
    pub(crate) fn line_under_cursor(&self) -> (line: usize)
        requires
            self@.valid(),
        ensures
            line == cursor_line(self@),
            line <= isize::MAX,
            line <= self@.text.len(),
    {
        proof {
            lemma_byte_len_bounds(self@.text);
            lemma_first_line(self@.text);
            lemma_line_of_contains(self@.text, self@.cursor.start);
        }
        self.text.char_to_line(self.cursor.range.start)
    }

    /// Scrolls the cursor into view.
    pub fn ensure_cursor_in_view(&mut self, frame: &Rect)
        requires
            old(self)@.valid(),
            frame.size.height > 0 || cursor_line(old(self)@) < old(self)@.first_line,
        ensures
            final(self)@ == scrolled(old(self)@, frame.size.height as int),
            final(self)@.valid(),
            frame.size.height > 0 ==> final(self)@.first_line <= cursor_line(final(self)@)
                < final(self)@.first_line + frame.size.height,
    {
        let new_line = self.line_under_cursor();
        if new_line < self.first_line {
            self.first_line = new_line;
        } else if new_line - self.first_line > frame.size.height - 1 {
            self.first_line = new_line - frame.size.height + 1;
        }
    }

    /// Scrolls so that the cursor is in the middle of the frame, or, where it is
    /// there, in its first line.
    pub fn center_visual_cursor(&mut self, frame: &Rect)
        requires
            old(self)@.valid(),
        ensures
            final(self)@ == centered(old(self)@, frame.size.height as int),
            final(self)@.valid(),
    {
        let line_index = self.line_under_cursor();
        if line_index >= frame.size.height / 2 {
            let middle_vertical = line_index - frame.size.height / 2;
            if self.first_line != middle_vertical {
                self.first_line = middle_vertical;
            } else if self.first_line != line_index {
                self.first_line = line_index;
            }
        }
    }
}

} // verus!
