//! What the status bar shows, and where.

use vstd::prelude::*;

use crate::buffer::BufferModel;
use crate::draw::Context;
use crate::lines::{lemma_first_line, lemma_line_of_contains, line_count, line_of};
use crate::status::{
    decimal, is_next_segment, padded, percent, position_text, readable_size, StatusSegment,
};
use crate::utf8::byte_len;

verus! {

/// The number that digits stand for.
pub open spec fn value_of(digits: Seq<char>) -> int
    decreases digits.len(),
{
    if digits.len() == 0 {
        0
    } else {
        10 * value_of(digits.drop_last()) + (digits.last() as int - '0' as int)
    }
}

/// A number that is written is read back the same. It is written in digits, without a
/// zero at the front but for zero itself.
pub proof fn law_numbers_read_back(number: nat)
    ensures
        value_of(decimal(number)) == number,
        decimal(number).len() > 0,
        forall|i: int|
            0 <= i < decimal(number).len() ==> '0' as int <= #[trigger] decimal(number)[i] as int
                <= '9' as int,
        number > 0 ==> decimal(number)[0] != '0',
        number == 0 ==> decimal(number).len() == 1,
    decreases number,
{
    let digits = decimal(number);
    if number >= 10 {
        law_numbers_read_back(number / 10);
        assert(digits.drop_last() =~= decimal(number / 10));
        assert(digits[0] == decimal(number / 10)[0]);
        assert forall|i: int| 0 <= i < digits.len() implies '0' as int
            <= #[trigger] digits[i] as int <= '9' as int by {
            if i < digits.len() - 1 {
                assert(digits[i] == decimal(number / 10)[i]);
            }
        }
    } else {
        assert(digits.drop_last() =~= Seq::<char>::empty());
        assert(value_of(digits.drop_last()) == 0);
    }
}

/// A text that is filled up has spaces before it, as many as it lacks of the width, and
/// none if it lacks none.
pub proof fn law_padding_is_on_the_left(text: Seq<char>, width: int)
    ensures
        ({
            let filled = padded(text, width);
            let added = filled.len() - text.len();
            &&& text.len() >= width ==> added == 0
            &&& text.len() < width ==> filled.len() == width
            &&& filled.skip(added) == text
            &&& forall|i: int| 0 <= i < added ==> #[trigger] filled[i] == ' '
        }),
{
    let filled = padded(text, width);
    assert(filled.skip(filled.len() - text.len()) =~= text);
}

/// How far down the cursor is, is told in percent, rounded down: from above nothing, up
/// to all on the last line.
pub proof fn law_percent_is_rounded_down(buffer: BufferModel)
    requires
        0 <= buffer.cursor.start <= buffer.text.len(),
    ensures
        ({
            let line = line_of(buffer.text, buffer.cursor.start);
            let lines = line_count(buffer.text);
            &&& percent(buffer) * lines <= 100 * (line + 1) < (percent(buffer) + 1) * lines
            &&& 0 <= percent(buffer) <= 100
            &&& line == lines - 1 ==> percent(buffer) == 100
        }),
{
    let line = line_of(buffer.text, buffer.cursor.start);
    let lines = line_count(buffer.text);
    let result = percent(buffer);
    lemma_first_line(buffer.text);
    lemma_line_of_contains(buffer.text, buffer.cursor.start);
    lemma_floor(100 * (line + 1), lines);
    assert(0 <= result <= 100) by (nonlinear_arith)
        requires
            result * lines <= 100 * (line + 1) < (result + 1) * lines,
            0 <= line < lines,
    ;
    if line == lines - 1 {
        assert(result == 100) by (nonlinear_arith)
            requires
                result * lines <= 100 * lines < (result + 1) * lines,
                0 < lines,
        ;
    }
}

proof fn lemma_floor(a: int, b: int)
    by (nonlinear_arith)
    requires
        0 <= a,
        0 < b,
    ensures
        (a / b) * b <= a < (a / b + 1) * b,
{
}

/// The position is told as the line, counted from zero, a colon, the column in at least
/// two characters, and the percentage in at least three, with spaces around them.
pub proof fn law_position_is_line_column_and_percent(buffer: BufferModel, column: nat)
    ensures
        position_text(buffer, column as int) == seq![' '] + decimal(
            line_of(buffer.text, buffer.cursor.start) as nat,
        ) + seq![':'] + padded(decimal(column), 2) + seq![' '] + padded(
            decimal(percent(buffer) as nat),
            3,
        ) + seq!['%', ' '],
{
}

/// What the parts of the status bar show, from left to right: the number of the frame;
/// a mark for changes that are not saved; the size of the text; its file, if it has one;
/// and its mode. The last part is the position.
pub proof fn law_parts_show_the_buffer(
    buffer: BufferModel,
    context: Context,
    column: int,
    drawn: Seq<usize>,
    segment: StatusSegment,
)
    requires
        is_next_segment(Some(segment), buffer, context, column, drawn),
    ensures
        drawn.len() < 6,
        drawn.len() == 0 ==> {
            &&& segment.content@ == seq![' '] + decimal(context.frame_id as nat) + seq![' ']
            &&& context.focused ==> segment.style == context.theme.status_frame_id_focused
            &&& !context.focused ==> segment.style == context.theme.status_frame_id_unfocused
        },
        drawn.len() == 1 && buffer.modified is Unchanged ==> {
            &&& segment.content@ == seq![' ', '-', ' ']
            &&& segment.style == context.theme.status_is_not_modified
        },
        drawn.len() == 1 && !(buffer.modified is Unchanged) ==> {
            &&& segment.content@ == seq![' ', '\u{2632}', ' ']
            &&& segment.style == context.theme.status_is_modified
        },
        drawn.len() == 2 ==> {
            &&& segment.content@ == seq![' '] + readable_size(byte_len(buffer.text) as nat) + seq![
                ' ',
            ]
            &&& segment.style == context.theme.status_file_size
        },
        drawn.len() == 3 ==> {
            &&& buffer.file_path matches Some(path) ==> segment.content@ == path + seq![' ']
            &&& buffer.file_path is None ==> segment.content@.len() == 0
            &&& segment.style == context.theme.status_file_name
        },
        drawn.len() == 4 ==> {
            &&& segment.content@ == seq![' '] + buffer.mode_name
            &&& segment.style == context.theme.status_mode
        },
        drawn.len() == 5 ==> {
            &&& segment.content@ == position_text(buffer, column)
            &&& segment.style == context.theme.status_position_in_file
        },
{
}

/// There are six parts, all of them in the last row of the frame.
pub proof fn law_parts_are_in_the_last_row(
    buffer: BufferModel,
    context: Context,
    column: int,
    drawn: Seq<usize>,
    segment: Option<StatusSegment>,
)
    requires
        is_next_segment(segment, buffer, context, column, drawn),
    ensures
        segment is Some <==> drawn.len() < 6,
        segment matches Some(part) ==> part.y + 1 == context.frame.origin.y
            + context.frame.size.height,
{
}

/// The first part is at the left edge, and up to the mode each part starts where the one
/// before it ends. The position ends at the right edge, or starts at the left one where
/// it is too long.
pub proof fn law_parts_follow_one_another(
    buffer: BufferModel,
    context: Context,
    column: int,
    drawn: Seq<usize>,
    width: usize,
    part: StatusSegment,
    next: StatusSegment,
)
    requires
        is_next_segment(Some(part), buffer, context, column, drawn),
        is_next_segment(Some(next), buffer, context, column, drawn.push(width)),
    ensures
        drawn.len() == 0 ==> part.x == context.frame.origin.x,
        drawn.len() < 4 ==> next.x == part.x + width,
        drawn.len() == 4 && next.content@.len() <= context.frame.size.width ==> next.x
            + next.content@.len() == context.frame.origin.x + context.frame.size.width,
        drawn.len() == 4 && next.content@.len() > context.frame.size.width ==> next.x
            == context.frame.origin.x,
{
    assert(drawn.push(width).drop_last() =~= drawn);
    assert(drawn.push(width).last() == width);
}

} // verus!
