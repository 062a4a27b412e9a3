//! The status bar of a buffer.

use size_format::SizeFormatterBinary;
use vstd::arithmetic::power::pow;
use vstd::prelude::*;
use vstd::string::*;

use crate::buffer::{Buffer, BufferModel, ModifiedStatus};
use crate::draw::Context;
use crate::event::spaces;
use crate::geometry::Rect;
use crate::lines::{lemma_first_line, line_count};
use crate::scroll::cursor_line;
use crate::theme::Style;
use crate::utf8::{byte_len, lemma_byte_len_bounds};

verus! {

/// [`String::push`]: the character is put behind the others.
pub assume_specification[ String::push ](string: &mut String, c: char)
    ensures
        final(string)@ == old(string)@.push(c),
;

/// A digit as a character.
pub open spec fn digit(value: int) -> char {
    ('0' as int + value) as char
}

/// A number in the decimal system.
pub open spec fn decimal(number: nat) -> Seq<char>
    decreases number,
{
    if number < 10 {
        seq![digit(number as int)]
    } else {
        decimal(number / 10).push(digit((number % 10) as int))
    }
}

/// How often a size can be divided by 1024: the number of its prefix.
pub open spec fn prefix_number(bytes: nat) -> nat
    decreases bytes,
{
    if bytes < 1024 {
        0
    } else {
        prefix_number(bytes / 1024) + 1
    }
}

/// The binary prefixes from the first on, as far as a `u64` needs them.
pub open spec fn prefix(number: nat) -> Seq<char> {
    seq![seq!['K', 'M', 'G', 'T', 'P', 'E'][number - 1], 'i']
}

/// A size in bytes as a person reads it: with a binary prefix and, where there is one,
/// with one decimal. It is rounded down.
pub open spec fn readable_size(bytes: nat) -> Seq<char> {
    let number = prefix_number(bytes);
    let unit = pow(1024, number) as nat;
    let whole = decimal(bytes / unit);
    let tenths = (bytes % unit) * 10 / unit;
    if number == 0 {
        whole
    } else {
        whole + seq!['.', digit(tenths as int)] + prefix(number)
    }
}

/// What `size_format::SizeFormatterBinary` displays of a number of bytes: the number
/// in the largest unit that it reaches, cut off behind the first decimal, and the prefix
/// of the unit.
#[verifier::external_body]
fn format_size(bytes: u64) -> (text: String)
    ensures
        text@ == readable_size(bytes as nat),
{
    format!("{}", SizeFormatterBinary::new(bytes))
}

/// A text filled up with spaces on the left.
pub open spec fn padded(text: Seq<char>, width: int) -> Seq<char> {
    if text.len() < width {
        spaces(width - text.len()) + text
    } else {
        text
    }
}

/// How much of the text is above the end of the line under the cursor, in percent.
pub open spec fn percent(buffer: BufferModel) -> int {
    100 * (cursor_line(buffer) + 1) / line_count(buffer.text)
}

/// Where the cursor is: its line, its column and how far down that is.
pub open spec fn position_text(buffer: BufferModel, visual_cursor_x: int) -> Seq<char> {
    seq![' '] + decimal(cursor_line(buffer) as nat) + seq![':'] + padded(
        decimal(visual_cursor_x as nat),
        2,
    ) + seq![' '] + padded(decimal(percent(buffer) as nat), 3) + seq!['%', ' ']
}

/// A part of the status bar.
pub struct StatusSegment {
    pub x: usize,
    pub y: usize,
    pub style: Style,
    pub content: String,
}

/// What a part of the status bar shows, and how. From left to right they are: the
/// number of the frame, whether there are unsaved changes, the size of the text,
/// its file and its mode; the last is the position in the text.
pub open spec fn segment_content(
    buffer: BufferModel,
    context: Context,
    visual_cursor_x: int,
    index: int,
) -> (Style, Seq<char>) {
    let theme = context.theme;
    if index == 0 {
        (
            if context.focused {
                theme.status_frame_id_focused
            } else {
                theme.status_frame_id_unfocused
            },
            seq![' '] + decimal(context.frame_id as nat) + seq![' '],
        )
    } else if index == 1 {
        match buffer.modified {
            ModifiedStatus::Unchanged => (theme.status_is_not_modified, seq![' ', '-', ' ']),
            _ => (theme.status_is_modified, seq![' ', '\u{2632}', ' ']),
        }
    } else if index == 2 {
        (
            theme.status_file_size,
            seq![' '] + readable_size(byte_len(buffer.text) as nat) + seq![' '],
        )
    } else if index == 3 {
        (
            theme.status_file_name,
            match buffer.file_path {
                Some(path) => path + seq![' '],
                None => Seq::empty(),
            },
        )
    } else if index == 4 {
        (theme.status_mode, seq![' '] + buffer.mode_name)
    } else {
        (theme.status_position_in_file, position_text(buffer, visual_cursor_x))
    }
}

/// The sum of several widths.
pub open spec fn total(widths: Seq<usize>) -> int
    decreases widths.len(),
{
    if widths.len() == 0 {
        0
    } else {
        total(widths.drop_last()) + widths.last()
    }
}

/// How many columns the parts before the next one take. What comes behind the
/// mode does not depend on how wide it is.
pub open spec fn columns_taken(drawn: Seq<usize>) -> int {
    if drawn.len() <= 4 {
        total(drawn)
    } else {
        total(drawn.take(4))
    }
}

/// The column of a part of the status bar. The position is at the right edge, the
/// others follow one another.
pub open spec fn segment_x(context: Context, drawn: Seq<usize>, content: Seq<char>) -> int {
    if drawn.len() < 5 {
        context.frame.origin.x + columns_taken(drawn)
    } else if content.len() <= context.frame.size.width {
        context.frame.origin.x + context.frame.size.width - content.len()
    } else {
        context.frame.origin.x as int
    }
}

/// Whether this is the next part of the status bar when parts of the given widths
/// are drawn.
pub open spec fn is_next_segment(
    segment: Option<StatusSegment>,
    buffer: BufferModel,
    context: Context,
    visual_cursor_x: int,
    drawn: Seq<usize>,
) -> bool {
    match segment {
        Some(segment) => {
            let (style, content) = segment_content(
                buffer,
                context,
                visual_cursor_x,
                drawn.len() as int,
            );
            &&& drawn.len() < 6
            &&& segment.x == segment_x(context, drawn, content)
            &&& segment.y == context.frame.origin.y + context.frame.size.height - 1
            &&& segment.style == style
            &&& segment.content@ == content
        },
        None => drawn.len() >= 6,
    }
}

/// Writes a number in the decimal system.
pub fn write_decimal(number: usize) -> (text: String)
    ensures
        text@ == decimal(number as nat),
    decreases number,
{
    let last = (48u8 + (number % 10) as u8) as char;
    let mut text = if number < 10 {
        String::new()
    } else {
        write_decimal(number / 10)
    };
    text.push(last);
    text
}

/// Fills a text up with spaces on the left.
fn write_padded(text: String, width: usize) -> (filled: String)
    ensures
        filled@ == padded(text@, width as int),
{
    let length = text.as_str().unicode_len();
    let mut filled = String::new();
    let mut i: usize = length;
    while i < width
        invariant
            length == text@.len(),
            length <= width ==> length <= i <= width,
            length > width ==> i == length,
            filled@ == spaces(i - length),
        decreases width - i,
    {
        filled.push(' ');
        i = i + 1;
    }
    filled.append(text.as_str());
    filled
}

/// Puts a space before a text and one behind it.
pub fn spaced(content: &str) -> (text: String)
    ensures
        text@ == seq![' '] + content@ + seq![' '],
{
    let mut text = String::new();
    text.push(' ');
    text.append(content);
    text.push(' ');
    assert(text@ =~= seq![' '] + content@ + seq![' ']);
    text
}

/// Adds up how many columns the parts before the next one take.
fn add_columns(drawn: &Vec<usize>, limit: usize) -> (columns: usize)
    requires
        columns_taken(drawn@) <= limit,
    ensures
        columns == columns_taken(drawn@),
{
    let count = if drawn.len() <= 4 {
        drawn.len()
    } else {
        4
    };
    let ghost counted = drawn@.take(count as int);
    assert(drawn.len() <= 4 ==> counted =~= drawn@);
    let mut columns: usize = 0;
    let mut i: usize = 0;
    assert(counted.take(0) =~= Seq::<usize>::empty());
    while i < count
        invariant
            i <= count <= drawn.len(),
            counted == drawn@.take(count as int),
            total(counted) <= limit,
            columns == total(counted.take(i as int)),
        decreases count - i,
    {
        proof {
            assert(counted.take(i + 1).drop_last() =~= counted.take(i as int));
            lemma_total_prefix(counted, i + 1);
        }
        columns = columns + drawn[i];
        i = i + 1;
    }
    assert(counted.take(i as int) =~= counted);
    columns
}

/// The first widths add up to no more than all of them.
proof fn lemma_total_prefix(widths: Seq<usize>, count: int)
    requires
        0 <= count <= widths.len(),
    ensures
        0 <= total(widths.take(count)) <= total(widths),
    decreases widths.len(),
{
    if widths.len() == 0 {
        assert(widths.take(count) =~= widths);
    } else if count == widths.len() {
        assert(widths.take(count) =~= widths);
        lemma_total_prefix(widths.drop_last(), widths.len() - 1);
        assert(widths.drop_last().take(widths.len() - 1) =~= widths.drop_last());
    } else {
        lemma_total_prefix(widths.drop_last(), count);
        assert(widths.drop_last().take(count) =~= widths.take(count));
    }
}

/// The row of the status bar: the last one of the frame.
pub fn status_bar_region(context: &Context) -> (region: Rect)
    requires
        context.frame.bounded(),
        context.frame.size.height > 0,
    ensures
        region.origin.x == context.frame.origin.x,
        region.origin.y == context.frame.origin.y + context.frame.size.height - 1,
        region.size.width == context.frame.size.width,
        region.size.height == 1,
{
    Rect::new(
        context.frame.origin.x,
        context.frame.origin.y + context.frame.size.height - 1,
        context.frame.size.width,
        1,
    )
}

impl Buffer {
    /// Writes where the cursor is.
    fn write_position(&self, visual_cursor_x: usize) -> (text: String)
        requires
            self@.valid(),
            100 * (cursor_line(self@) + 1) <= usize::MAX,
        ensures
            text@ == position_text(self@, visual_cursor_x as int),
    {
        let current_line = self.line_under_cursor();
        proof {
            lemma_byte_len_bounds(self@.text);
            lemma_first_line(self@.text);
        }
        let num_lines = self.text.len_lines();
        let percent = 100 * (current_line + 1) / num_lines;
        let line = write_decimal(current_line);
        let column = write_padded(write_decimal(visual_cursor_x), 2);
        let percent = write_padded(write_decimal(percent), 3);
        let mut text = String::new();
        text.push(' ');
        text.append(line.as_str());
        text.push(':');
        text.append(column.as_str());
        text.push(' ');
        text.append(percent.as_str());
        text.push('%');
        text.push(' ');
        assert(text@ =~= position_text(self@, visual_cursor_x as int));
        text
    }

    /// The next part of the status bar, when parts of the given widths are drawn,
    /// from left to right; none when all are.
    pub fn draw_status_bar(
        &self,
        context: &Context,
        visual_cursor_x: usize,
        drawn: &Vec<usize>,
    ) -> (segment: Option<StatusSegment>)
        requires
            self@.valid(),
            context.frame.bounded(),
            context.frame.size.height > 0,
            context.frame.origin.x + columns_taken(drawn@) <= usize::MAX,
            100 * (cursor_line(self@) + 1) <= usize::MAX,
        ensures
            is_next_segment(segment, self@, *context, visual_cursor_x as int, drawn@),
    {
        let index = drawn.len();
        if index >= 6 {
            return None;
        }
        let theme = &context.theme;
        let (style, content) = if index == 0 {
            let style = if context.focused {
                theme.status_frame_id_focused
            } else {
                theme.status_frame_id_unfocused
            };
            (style, spaced(write_decimal(context.frame_id).as_str()))
        } else if index == 1 {
            let mut content = String::new();
            content.push(' ');
            let style = match self.has_unsaved_changes {
                ModifiedStatus::Unchanged => {
                    content.push('-');
                    theme.status_is_not_modified
                },
                _ => {
                    content.push('\u{2632}');
                    theme.status_is_modified
                },
            };
            content.push(' ');
            (style, content)
        } else if index == 2 {
            let size = format_size(self.text.len_bytes() as u64);
            (theme.status_file_size, spaced(size.as_str()))
        } else if index == 3 {
            let mut content = String::new();
            if let Some(path) = &self.file_path {
                content.append(path.as_str());
                content.push(' ');
            }
            (theme.status_file_name, content)
        } else if index == 4 {
            let mut content = String::new();
            content.push(' ');
            content.append(self.mode.name.as_str());
            (theme.status_mode, content)
        } else {
            (theme.status_position_in_file, self.write_position(visual_cursor_x))
        };
        let ghost expected = segment_content(
            self@,
            *context,
            visual_cursor_x as int,
            index as int,
        );
        assert(content@ =~= expected.1);
        let x = if index < 5 {
            context.frame.origin.x + add_columns(drawn, usize::MAX - context.frame.origin.x)
        } else {
            let length = content.as_str().unicode_len();
            context.frame.origin.x + context.frame.size.width.saturating_sub(length)
        };
        let y = context.frame.origin.y + context.frame.size.height - 1;
        Some(StatusSegment { x, y, style, content })
    }
}

} // verus!
