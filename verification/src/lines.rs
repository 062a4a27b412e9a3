//! What the lines of a text are.
//!
//! A line ends behind its line break. A text that ends in a line break has a
//! last line without a character.

use vstd::prelude::*;

verus! {

/// The characters that break lines.
pub open spec fn is_break(c: char) -> bool {
    ||| c == '\n'
    ||| c == '\u{b}'
    ||| c == '\u{c}'
    ||| c == '\r'
    ||| c == '\u{85}'
    ||| c == '\u{2028}'
    ||| c == '\u{2029}'
}

/// Whether the character at `index` is the last of a line break. A carriage
/// return and the line feed behind it are one break.
pub open spec fn ends_line(text: Seq<char>, index: int) -> bool {
    &&& 0 <= index < text.len()
    &&& is_break(text[index])
    &&& !(text[index] == '\r' && index + 1 < text.len() && text[index + 1] == '\n')
}

/// The line that a position is on: the number of line breaks before it.
pub open spec fn line_of(text: Seq<char>, index: int) -> int
    decreases index,
{
    if index <= 0 {
        0
    } else {
        line_of(text, index - 1) + if ends_line(text, index - 1) {
            1int
        } else {
            0
        }
    }
}

/// The number of lines of a text: one more than it has line breaks.
pub open spec fn line_count(text: Seq<char>) -> int {
    line_of(text, text.len() as int) + 1
}

/// Whether `line` starts at `index`.
pub open spec fn starts_line(text: Seq<char>, line: int, index: int) -> bool {
    &&& 0 <= index <= text.len()
    &&& line_of(text, index) == line
    &&& index == 0 || ends_line(text, index - 1)
}

/// Where `line` starts; past the last line, the end of the text.
pub open spec fn line_start(text: Seq<char>, line: int) -> int {
    if 0 <= line < line_count(text) {
        choose|index: int| starts_line(text, line, index)
    } else {
        text.len() as int
    }
}

/// Where `line` ends: behind its line break, or at the end of the text.
pub open spec fn line_end(text: Seq<char>, line: int) -> int {
    line_start(text, line + 1)
}

/// The characters of a line, with its line break.
pub open spec fn line_text(text: Seq<char>, line: int) -> Seq<char> {
    text.subrange(line_start(text, line), line_end(text, line))
}

/// Where the line break of a line starts; without one, the end of the text.
pub open spec fn break_start(text: Seq<char>, line: int) -> int {
    let end = line_end(text, line);
    if line + 1 >= line_count(text) {
        end
    } else if text[end - 1] == '\n' && end - 1 > line_start(text, line) && text[end - 2] == '\r' {
        end - 2
    } else {
        end - 1
    }
}

/// The characters of a line, without its line break.
pub open spec fn line_body(text: Seq<char>, line: int) -> Seq<char> {
    text.subrange(line_start(text, line), break_start(text, line))
}

/// There are no more lines before a position than characters.
pub proof fn lemma_line_of_bounds(text: Seq<char>, index: int)
    requires
        0 <= index,
    ensures
        0 <= line_of(text, index) <= index,
    decreases index,
{
    if index > 0 {
        lemma_line_of_bounds(text, index - 1);
    }
}

/// Later positions are on the same line or on a later one.
pub proof fn lemma_line_of_order(text: Seq<char>, i: int, j: int)
    requires
        0 <= i <= j,
    ensures
        line_of(text, i) <= line_of(text, j),
        forall|k: int| i <= k < j && #[trigger] ends_line(text, k) ==> line_of(text, i) < line_of(
            text,
            j,
        ),
    decreases j - i,
{
    if i < j {
        lemma_line_of_order(text, i, j - 1);
    }
}

proof fn lemma_line_start_exists(text: Seq<char>, line: int, index: int) -> (start: int)
    requires
        0 <= index <= text.len(),
        0 <= line <= line_of(text, index),
    ensures
        starts_line(text, line, start),
        start <= index,
    decreases index,
{
    if index == 0 {
        0
    } else if line == line_of(text, index) && ends_line(text, index - 1) {
        index
    } else {
        lemma_line_start_exists(text, line, index - 1)
    }
}

proof fn lemma_line_start_unique(text: Seq<char>, line: int, i: int, j: int)
    requires
        starts_line(text, line, i),
        starts_line(text, line, j),
    ensures
        i == j,
{
    if i < j {
        lemma_line_of_order(text, i, j);
        assert(ends_line(text, j - 1));
    } else if j < i {
        lemma_line_of_order(text, j, i);
        assert(ends_line(text, i - 1));
    }
}

/// The start of a line is on the line.
pub proof fn lemma_line_start(text: Seq<char>, line: int)
    requires
        0 <= line < line_count(text),
    ensures
        starts_line(text, line, line_start(text, line)),
{
    let start = lemma_line_start_exists(text, line, text.len() as int);
    assert(starts_line(text, line, start));
}

/// The one position at which a line starts is the start of the line.
pub proof fn lemma_line_start_is(text: Seq<char>, line: int, index: int)
    requires
        starts_line(text, line, index),
    ensures
        line_start(text, line) == index,
        0 <= line < line_count(text),
{
    lemma_line_of_bounds(text, index);
    lemma_line_of_order(text, index, text.len() as int);
    lemma_line_start(text, line);
    lemma_line_start_unique(text, line, index, line_start(text, line));
}

/// A text starts with its first line.
pub proof fn lemma_first_line(text: Seq<char>)
    ensures
        line_start(text, 0) == 0,
        line_count(text) >= 1,
        line_count(text) <= text.len() + 1,
{
    lemma_line_of_bounds(text, text.len() as int);
    lemma_line_start_is(text, 0, 0);
}

/// Lines start and end within the text, one behind the other.
pub proof fn lemma_line_bounds(text: Seq<char>, line: int)
    requires
        0 <= line < line_count(text),
    ensures
        0 <= line_start(text, line) <= line_end(text, line) <= text.len(),
        line + 1 < line_count(text) ==> line_start(text, line) < line_end(text, line),
        line + 1 < line_count(text) ==> ends_line(text, line_end(text, line) - 1),
{
    lemma_line_start(text, line);
    if line + 1 < line_count(text) {
        lemma_line_start(text, line + 1);
        let a = line_start(text, line);
        let b = line_start(text, line + 1);
        if b <= a {
            lemma_line_of_order(text, b, a);
        }
    }
}

/// A position is behind the start of its line, and before the end of it unless
/// the text ends there.
pub proof fn lemma_line_of_contains(text: Seq<char>, index: int)
    requires
        0 <= index <= text.len(),
    ensures
        0 <= line_of(text, index) < line_count(text),
        line_start(text, line_of(text, index)) <= index <= line_end(text, line_of(text, index)),
        index < text.len() ==> index < line_end(text, line_of(text, index)),
{
    let line = line_of(text, index);
    lemma_line_of_bounds(text, index);
    lemma_line_of_order(text, index, text.len() as int);
    let start = lemma_line_start_exists(text, line, index);
    lemma_line_start_is(text, line, start);
    if line + 1 < line_count(text) {
        lemma_line_start(text, line + 1);
        let next = line_start(text, line + 1);
        if next <= index {
            lemma_line_of_order(text, next, index);
        }
    }
}

/// From the start of a line up to its end, positions are on the line.
pub proof fn lemma_line_contains(text: Seq<char>, line: int, index: int)
    requires
        0 <= line < line_count(text),
        line_start(text, line) <= index < line_end(text, line),
    ensures
        line_of(text, index) == line,
{
    lemma_line_start(text, line);
    lemma_line_bounds(text, line);
    lemma_line_of_order(text, line_start(text, line), index);
    if line + 1 < line_count(text) {
        lemma_line_start(text, line + 1);
        lemma_line_of_order(text, index, line_end(text, line) - 1);
    } else {
        lemma_line_of_order(text, index, text.len() as int);
    }
}

/// From the start of a line up to its line break, positions are on the line.
pub proof fn lemma_line_body(text: Seq<char>, line: int, index: int)
    requires
        0 <= line < line_count(text),
        line_start(text, line) <= index <= break_start(text, line),
    ensures
        line_of(text, index) == line,
        0 <= index <= text.len(),
{
    lemma_line_start(text, line);
    lemma_line_bounds(text, line);
    lemma_line_of_order(text, line_start(text, line), index);
    if line + 1 < line_count(text) {
        lemma_line_start(text, line + 1);
        lemma_line_of_order(text, index, line_end(text, line) - 1);
    } else {
        lemma_line_of_order(text, index, text.len() as int);
    }
}

/// The line break of a line is not before its start.
pub proof fn lemma_break_start(text: Seq<char>, line: int)
    requires
        0 <= line < line_count(text),
    ensures
        0 <= line_start(text, line) <= break_start(text, line) <= text.len(),
{
    lemma_line_bounds(text, line);
}

} // verus!
