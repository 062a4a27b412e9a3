//! How a text is tidied up before it is written.

use ropey::Rope;
use vstd::prelude::*;

use crate::lines::is_break;
use crate::rope::{contents, remove};

verus! {

/// Whether a character has the property `White_Space` of Unicode.
pub open spec fn white_space(c: char) -> bool {
    let code = c as u32;
    ||| 0x9 <= code <= 0xd
    ||| code == 0x20
    ||| code == 0x85
    ||| code == 0xa0
    ||| code == 0x1680
    ||| 0x2000 <= code <= 0x200a
    ||| 0x2028 <= code <= 0x2029
    ||| code == 0x202f
    ||| code == 0x205f
    ||| code == 0x3000
}

/// [`char::is_whitespace`]: whether the character has the property `White_Space`.
pub assume_specification[ char::is_whitespace ](c: char) -> (white: bool)
    ensures
        white == white_space(c),
;

/// Whether a line has anything but white space from `index` on.
pub open spec fn goes_on(text: Seq<char>, index: int) -> bool {
    exists|j: int|
        {
            &&& index <= j < text.len()
            &&& !white_space(#[trigger] text[j])
            &&& forall|k: int| index <= k <= j ==> !is_break(#[trigger] text[k])
        }
}

/// Whether the character at `index` is no white space at the end of its line.
pub open spec fn is_kept(text: Seq<char>, index: int) -> bool {
    is_break(text[index]) || goes_on(text, index)
}

/// The characters from `index` on that are no white space at the end of a line.
pub open spec fn stripped_from(text: Seq<char>, index: int) -> Seq<char>
    decreases text.len() - index,
{
    if index < 0 || index >= text.len() {
        Seq::empty()
    } else if is_kept(text, index) {
        seq![text[index]] + stripped_from(text, index + 1)
    } else {
        stripped_from(text, index + 1)
    }
}

/// A text without the white space at the end of its lines.
pub open spec fn stripped(text: Seq<char>) -> Seq<char> {
    stripped_from(text, 0)
}

/// Whether a line goes on can be told from the next character and the rest.
pub proof fn lemma_goes_on_step(text: Seq<char>, index: int)
    requires
        0 <= index < text.len(),
    ensures
        goes_on(text, index) == (!is_break(text[index]) && (!white_space(text[index]) || goes_on(
            text,
            index + 1,
        ))),
{
    if goes_on(text, index) {
        let j = choose|j: int|
            {
                &&& index <= j < text.len()
                &&& !white_space(#[trigger] text[j])
                &&& forall|k: int| index <= k <= j ==> !is_break(#[trigger] text[k])
            };
        assert(!is_break(text[index]));
        if white_space(text[index]) {
            assert(index + 1 <= j);
        }
    }
    if !is_break(text[index]) && goes_on(text, index + 1) {
        let j = choose|j: int|
            {
                &&& index + 1 <= j < text.len()
                &&& !white_space(#[trigger] text[j])
                &&& forall|k: int| index + 1 <= k <= j ==> !is_break(#[trigger] text[k])
            };
        assert(forall|k: int| index <= k <= j ==> !is_break(#[trigger] text[k]));
    }
}

/// Whether a character breaks lines.
fn breaks_line(c: char) -> (breaks: bool)
    ensures
        breaks == is_break(c),
{
    c == '\n' || c == '\u{b}' || c == '\u{c}' || c == '\r' || c == '\u{85}' || c == '\u{2028}' || c
        == '\u{2029}'
}

/// Takes the white space off the ends of the lines.
pub fn strip_trailing_whitespace(text: Rope) -> (tidy: Rope)
    ensures
        contents(tidy) == stripped(contents(text)),
{
    let ghost before = contents(text);
    let mut tidy = text;
    let mut index = tidy.len_chars();
    let mut more = false;
    assert(before.take(index as int) + stripped_from(before, index as int) =~= before);
    while index > 0
        invariant
            index <= before.len(),
            contents(tidy) == before.take(index as int) + stripped_from(before, index as int),
            more == goes_on(before, index as int),
        decreases index,
    {
        let c = tidy.char(index - 1);
        let ghost rest = stripped_from(before, index as int);
        proof {
            assert(contents(tidy)[index - 1] == before[index - 1]);
            lemma_goes_on_step(before, index - 1);
        }
        if breaks_line(c) {
            more = false;
        } else if !c.is_whitespace() {
            more = true;
        }
        if !breaks_line(c) && !more {
            remove(&mut tidy, index - 1, index);
            assert(contents(tidy) =~= before.take(index - 1) + rest);
        } else {
            assert(contents(tidy) =~= before.take(index - 1) + (seq![before[index - 1]] + rest));
        }
        index = index - 1;
    }
    assert(contents(tidy) =~= stripped(before));
    tidy
}

} // verus!
