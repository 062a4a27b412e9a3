//! How many bytes the characters of a text take in UTF-8.

use vstd::prelude::*;

verus! {

/// The number of bytes of a character in UTF-8.
pub open spec fn char_bytes(c: char) -> int {
    let code = c as u32;
    if code < 0x80 {
        1
    } else if code < 0x800 {
        2
    } else if code < 0x10000 {
        3
    } else {
        4
    }
}

/// The number of bytes of a text in UTF-8.
pub open spec fn byte_len(text: Seq<char>) -> int
    decreases text.len(),
{
    if text.len() == 0 {
        0
    } else {
        byte_len(text.drop_last()) + char_bytes(text.last())
    }
}

/// Whether a text is short enough to be held in one string.
pub open spec fn storable(text: Seq<char>) -> bool {
    byte_len(text) <= isize::MAX
}

/// Where the character at `index` starts, in bytes.
pub open spec fn byte_offset(text: Seq<char>, index: int) -> int {
    byte_len(text.take(index))
}

/// The character that the byte at `byte` belongs to; the length of the text for
/// a byte past its end.
pub open spec fn char_at_byte(text: Seq<char>, byte: int) -> int
    decreases text.len(),
{
    if text.len() == 0 || byte >= byte_len(text) {
        text.len() as int
    } else {
        char_at_byte(text.drop_last(), byte)
    }
}

/// Whether a character starts at `byte`, or the text ends there.
pub open spec fn is_char_start(text: Seq<char>, byte: int) -> bool {
    exists|index: int| 0 <= index <= text.len() && byte == #[trigger] byte_offset(text, index)
}

/// [`char::len_utf8`]: the number of bytes that the character takes in UTF-8.
pub assume_specification[ char::len_utf8 ](c: char) -> (bytes: usize)
    ensures
        bytes == char_bytes(c),
;

/// One more character adds its bytes.
pub proof fn lemma_byte_len_push(text: Seq<char>, c: char)
    ensures
        byte_len(text.push(c)) == byte_len(text) + char_bytes(c),
{
    assert(text.push(c).drop_last() =~= text);
}

/// The bytes of two texts are those of the one and of the other.
pub proof fn lemma_byte_len_add(a: Seq<char>, b: Seq<char>)
    ensures
        byte_len(a + b) == byte_len(a) + byte_len(b),
    decreases b.len(),
{
    if b.len() == 0 {
        assert(a + b =~= a);
    } else {
        assert((a + b).drop_last() =~= a + b.drop_last());
        lemma_byte_len_add(a, b.drop_last());
    }
}

/// A text has at least one byte for each character.
pub proof fn lemma_byte_len_bounds(text: Seq<char>)
    ensures
        text.len() <= byte_len(text) <= 4 * text.len(),
    decreases text.len(),
{
    if text.len() > 0 {
        lemma_byte_len_bounds(text.drop_last());
    }
}

/// The bytes of a text are those before `index` and those from it on.
pub proof fn lemma_byte_len_split(text: Seq<char>, index: int)
    requires
        0 <= index <= text.len(),
    ensures
        byte_len(text) == byte_offset(text, index) + byte_len(text.skip(index)),
        index <= byte_offset(text, index) <= byte_len(text),
        text.len() - index <= byte_len(text) - byte_offset(text, index),
{
    assert(text =~= text.take(index) + text.skip(index));
    lemma_byte_len_add(text.take(index), text.skip(index));
    lemma_byte_len_bounds(text.take(index));
    lemma_byte_len_bounds(text.skip(index));
}

/// Characters further on start at later bytes.
pub proof fn lemma_byte_offset_increases(text: Seq<char>, i: int, j: int)
    requires
        0 <= i < j <= text.len(),
    ensures
        byte_offset(text, i) < byte_offset(text, j),
{
    lemma_byte_len_split(text.take(j), i);
    assert(text.take(j).take(i) =~= text.take(i));
}

/// Going from a character to its first byte and back leads to the character.
pub proof fn lemma_char_at_byte_offset(text: Seq<char>, index: int)
    requires
        0 <= index <= text.len(),
    ensures
        char_at_byte(text, byte_offset(text, index)) == index,
    decreases text.len(),
{
    if index == text.len() {
        assert(text.take(index) =~= text);
    } else {
        lemma_byte_offset_increases(text, index, text.len() as int);
        assert(text.take(text.len() as int) =~= text);
        assert(text.drop_last().take(index) =~= text.take(index));
        lemma_char_at_byte_offset(text.drop_last(), index);
    }
}

/// The character of a byte within the text is a character of the text.
pub proof fn lemma_char_at_byte_bounds(text: Seq<char>, byte: int)
    ensures
        0 <= char_at_byte(text, byte) <= text.len(),
    decreases text.len(),
{
    if text.len() > 0 && byte < byte_len(text) {
        lemma_char_at_byte_bounds(text.drop_last(), byte);
    }
}

/// Of two bytes, the later one belongs to the same character or to a later one.
pub proof fn lemma_char_at_byte_order(text: Seq<char>, a: int, b: int)
    requires
        a <= b,
    ensures
        char_at_byte(text, a) <= char_at_byte(text, b),
    decreases text.len(),
{
    if text.len() > 0 {
        lemma_char_at_byte_bounds(text.drop_last(), a);
        lemma_char_at_byte_order(text.drop_last(), a, b);
    }
}

} // verus!
