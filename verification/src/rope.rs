//! What this library takes from the `ropey` crate.
//!
//! Every item here states, without proof, what a method of [`ropey::Rope`] does
//! to the characters that the rope holds.

use ropey::Rope;
use vstd::prelude::*;

use crate::lines::{line_count, line_of, line_start};
use crate::utf8::{byte_len, byte_offset, char_at_byte, char_bytes, storable};

verus! {

/// A rope of the `ropey` crate, seen only through what it holds.
#[verifier::external_type_specification]
#[verifier::external_body]
pub struct ExRope(Rope);

/// The characters that a rope holds, in order.
pub uninterp spec fn contents(rope: Rope) -> Seq<char>;

/// [`Rope::new`]: a rope without a character.
pub assume_specification[ Rope::new ]() -> (rope: Rope)
    ensures
        contents(rope) == Seq::<char>::empty(),
;

/// The clone of a rope holds the same characters.
pub assume_specification[ <Rope as Clone>::clone ](rope: &Rope) -> (copy: Rope)
    ensures
        contents(copy) == contents(*rope),
;

/// [`Rope::len_chars`]: how many characters the rope holds.
pub assume_specification[ Rope::len_chars ](rope: &Rope) -> (length: usize)
    ensures
        length == contents(*rope).len(),
;

/// [`Rope::len_bytes`]: how many bytes those characters are in UTF-8.
pub assume_specification[ Rope::len_bytes ](rope: &Rope) -> (length: usize)
    ensures
        length == byte_len(contents(*rope)),
;

/// [`Rope::len_lines`]: how many lines they make. The number is one more than
/// that of the line breaks, and has to fit in a `usize`.
pub assume_specification[ Rope::len_lines ](rope: &Rope) -> (length: usize)
    requires
        line_count(contents(*rope)) <= usize::MAX,
    ensures
        length == line_count(contents(*rope)),
;

/// [`Rope::char_to_line`]: the line that a position is on; the end of the text
/// is a position too.
pub assume_specification[ Rope::char_to_line ](rope: &Rope, char_idx: usize) -> (line: usize)
    requires
        char_idx <= contents(*rope).len(),
    ensures
        line == line_of(contents(*rope), char_idx as int),
;

/// [`Rope::line_to_char`]: where a line starts; one line past the last, the end
/// of the text.
pub assume_specification[ Rope::line_to_char ](rope: &Rope, line_idx: usize) -> (start: usize)
    requires
        line_idx <= line_count(contents(*rope)) <= usize::MAX,
    ensures
        start == line_start(contents(*rope), line_idx as int),
;

/// [`Rope::char_to_byte`]: the byte at which a character starts; for the end of
/// the text, its length in bytes.
pub assume_specification[ Rope::char_to_byte ](rope: &Rope, char_idx: usize) -> (byte: usize)
    requires
        char_idx <= contents(*rope).len(),
    ensures
        byte == byte_offset(contents(*rope), char_idx as int),
;

/// [`Rope::byte_to_char`]: the character that a byte belongs to; for the end of
/// the text, its length in characters.
pub assume_specification[ Rope::byte_to_char ](rope: &Rope, byte_idx: usize) -> (index: usize)
    requires
        byte_idx <= byte_len(contents(*rope)),
    ensures
        index == char_at_byte(contents(*rope), byte_idx as int),
;

/// [`Rope::char`]: the character at a position.
pub assume_specification[ Rope::char ](rope: &Rope, char_idx: usize) -> (c: char)
    requires
        char_idx < contents(*rope).len(),
    ensures
        c == contents(*rope)[char_idx as int],
;

/// [`Rope::insert_char`]: the character is put before the one at the position.
pub assume_specification[ Rope::insert_char ](rope: &mut Rope, char_idx: usize, ch: char)
    requires
        char_idx <= contents(*old(rope)).len(),
        byte_len(contents(*old(rope))) + char_bytes(ch) <= usize::MAX,
    ensures
        contents(*final(rope)) == contents(*old(rope)).insert(char_idx as int, ch),
;

/// [`Rope::insert`]: the characters are put before the one at the position.
pub assume_specification[ Rope::insert ](rope: &mut Rope, char_idx: usize, text: &str)
    requires
        char_idx <= contents(*old(rope)).len(),
        byte_len(contents(*old(rope))) + byte_len(text@) <= usize::MAX,
    ensures
        contents(*final(rope)) == contents(*old(rope)).take(char_idx as int) + text@ + contents(
            *old(rope),
        ).skip(char_idx as int),
;

/// [`Rope::remove`], on the characters from `start` up to `end`: they are gone,
/// and the others stay as they were.
#[verifier::external_body]
pub(crate) fn remove(rope: &mut Rope, start: usize, end: usize)
    requires
        start <= end <= contents(*old(rope)).len(),
    ensures
        contents(*final(rope)) == contents(*old(rope)).take(start as int) + contents(
            *old(rope),
        ).skip(end as int),
{
    rope.remove(start..end)
}

/// [`Rope::slice`], made a rope of its own: it holds the characters from `start`
/// up to `end`.
#[verifier::external_body]
pub(crate) fn copy_range(rope: &Rope, start: usize, end: usize) -> (copy: Rope)
    requires
        start <= end <= contents(*rope).len(),
    ensures
        contents(copy) == contents(*rope).subrange(start as int, end as int),
{
    Rope::from(rope.slice(start..end))
}

/// [`Rope::slice`], made a string: it holds the characters from `start` up to
/// `end`. A string longer than `isize::MAX` bytes cannot be allocated.
#[verifier::external_body]
pub(crate) fn text_range(rope: &Rope, start: usize, end: usize) -> (text: String)
    requires
        start <= end <= contents(*rope).len(),
        storable(contents(*rope)),
    ensures
        text@ == contents(*rope).subrange(start as int, end as int),
{
    String::from(rope.slice(start..end))
}

/// The characters of several pieces of text, one piece behind the other.
pub open spec fn joined(pieces: Seq<Seq<char>>) -> Seq<char>
    decreases pieces.len(),
{
    if pieces.len() == 0 {
        Seq::empty()
    } else {
        joined(pieces.drop_last()) + pieces.last()
    }
}

/// The characters of each of several strings.
pub open spec fn views(strings: Seq<String>) -> Seq<Seq<char>> {
    Seq::new(strings.len(), |i: int| strings[i]@)
}

/// [`Rope::chunks`]: the pieces in which the rope stores its text. None of them
/// is empty, and together they are the text. Where one piece ends and the next
/// begins depends on how the rope came about, and is left open.
#[verifier::external_body]
pub(crate) fn chunks(rope: &Rope) -> (pieces: Vec<String>)
    requires
        storable(contents(*rope)),
    ensures
        joined(views(pieces@)) == contents(*rope),
        forall|i: int| 0 <= i < pieces@.len() ==> (#[trigger] pieces@[i])@.len() > 0,
{
    rope.chunks().map(String::from).collect()
}

/// The first pieces and the others make up all of them.
pub proof fn lemma_joined_split(pieces: Seq<Seq<char>>, index: int)
    requires
        0 <= index <= pieces.len(),
    ensures
        joined(pieces) == joined(pieces.take(index)) + joined(pieces.skip(index)),
    decreases pieces.len(),
{
    if index == pieces.len() {
        assert(pieces.take(index) =~= pieces);
        assert(joined(pieces) + Seq::<char>::empty() =~= joined(pieces));
    } else {
        lemma_joined_split(pieces.drop_last(), index);
        assert(pieces.drop_last().take(index) =~= pieces.take(index));
        assert(pieces.skip(index).drop_last() =~= pieces.drop_last().skip(index));
        assert(joined(pieces) =~= joined(pieces.take(index)) + joined(pieces.skip(index)));
    }
}

/// One more piece comes behind the others.
pub proof fn lemma_joined_push(pieces: Seq<Seq<char>>, piece: Seq<char>)
    ensures
        joined(pieces.push(piece)) == joined(pieces) + piece,
{
    assert(pieces.push(piece).drop_last() =~= pieces);
}

} // verus!
