//! What becomes of a text on its way from a file and back to it.

use std::time::Instant;
use vstd::prelude::*;

use crate::buffer::{
    initial_text, opened, saving, BufferModel, FileState, ModifiedStatus, OpenError,
};
use crate::grapheme::{lemma_boundaries, next_boundary, prev_boundary};
use crate::lines::{
    is_break, lemma_first_line, lemma_line_bounds, lemma_line_of_contains, line_count, line_of,
    line_start,
};
use crate::rope::contents;
use crate::save::{goes_on, is_kept, lemma_goes_on_step, stripped, stripped_from, white_space};
use crate::task::{same_place, saved};

verus! {

/// Whether the character at `index` is white space with nothing but white space behind
/// it, up to the next line break or the end of the text.
pub open spec fn is_trailing(text: Seq<char>, index: int) -> bool {
    &&& white_space(text[index])
    &&& !is_break(text[index])
    &&& forall|j: int|
        index <= j < text.len() && (forall|k: int|
            index <= k <= j ==> !is_break(#[trigger] text[k])) ==> white_space(#[trigger] text[j])
}

/// Whether places are those of all characters from `index` on that are no white space
/// at the end of a line, in order.
pub open spec fn are_places_kept(text: Seq<char>, index: int, places: Seq<int>) -> bool {
    &&& forall|k: int|
        0 <= k < places.len() ==> index <= #[trigger] places[k] < text.len() && !is_trailing(
            text,
            places[k],
        )
    &&& forall|k: int, l: int| 0 <= k < l < places.len() ==> places[k] < places[l]
    &&& forall|i: int|
        index <= i < text.len() && !#[trigger] is_trailing(text, i) ==> places.contains(i)
}

proof fn lemma_kept_or_trailing(text: Seq<char>, index: int)
    requires
        0 <= index < text.len(),
    ensures
        is_kept(text, index) == !is_trailing(text, index),
{
    lemma_goes_on_step(text, index);
    if goes_on(text, index) {
        let j = choose|j: int|
            {
                &&& index <= j < text.len()
                &&& !white_space(#[trigger] text[j])
                &&& forall|k: int| index <= k <= j ==> !is_break(#[trigger] text[k])
            };
        assert(!white_space(text[j]));
    }
}

proof fn lemma_places_kept(text: Seq<char>, index: int) -> (places: Seq<int>)
    requires
        0 <= index <= text.len(),
    ensures
        are_places_kept(text, index, places),
        stripped_from(text, index) == Seq::new(places.len(), |k: int| text[places[k]]),
    decreases text.len() - index,
{
    if index == text.len() {
        let places = Seq::<int>::empty();
        assert(stripped_from(text, index) =~= Seq::new(places.len(), |k: int| text[places[k]]));
        places
    } else {
        let others = lemma_places_kept(text, index + 1);
        lemma_kept_or_trailing(text, index);
        if is_trailing(text, index) {
            assert forall|i: int|
                index <= i < text.len() && !#[trigger] is_trailing(text, i) implies others.contains(
                i,
            ) by {
                assert(i != index);
            }
            others
        } else {
            let places = seq![index] + others;
            assert forall|i: int|
                index <= i < text.len() && !#[trigger] is_trailing(text, i) implies places.contains(
                i,
            ) by {
                if i == index {
                    assert(places[0] == index);
                } else {
                    let k = others.index_of(i);
                    assert(others.contains(i));
                    assert(places[k + 1] == i);
                }
            }
            assert forall|k: int| 0 <= k < places.len() implies index <= #[trigger] places[k]
                < text.len() && !is_trailing(text, places[k]) by {
                if k > 0 {
                    assert(places[k] == others[k - 1]);
                }
            }
            assert forall|k: int, l: int| 0 <= k < l < places.len() implies places[k]
                < places[l] by {
                assert(places[l] == others[l - 1]);
                if k > 0 {
                    assert(places[k] == others[k - 1]);
                }
            }
            assert(stripped_from(text, index) =~= Seq::new(
                places.len(),
                |k: int| text[places[k]],
            ));
            places
        }
    }
}

/// Tidying up takes off the white space at the ends of the lines and nothing else: what
/// is left are all the other characters, in their order.
pub proof fn law_only_trailing_white_space_goes(text: Seq<char>)
    ensures
        exists|places: Seq<int>|
            #[trigger] are_places_kept(text, 0, places) && stripped(text) == Seq::new(
                places.len(),
                |k: int| text[places[k]],
            ),
{
    let places = lemma_places_kept(text, 0);
    assert(are_places_kept(text, 0, places));
}

/// A text without white space at the ends of its lines is written as it is.
pub proof fn law_tidy_text_is_written_as_it_is(text: Seq<char>)
    requires
        forall|i: int| 0 <= i < text.len() ==> !#[trigger] is_trailing(text, i),
    ensures
        stripped(text) == text,
{
    lemma_tidy_rest(text, 0);
    assert(text.skip(0) =~= text);
}

proof fn lemma_tidy_rest(text: Seq<char>, index: int)
    requires
        0 <= index <= text.len(),
        forall|i: int| 0 <= i < text.len() ==> !#[trigger] is_trailing(text, i),
    ensures
        stripped_from(text, index) == text.skip(index),
    decreases text.len() - index,
{
    if index < text.len() {
        lemma_tidy_rest(text, index + 1);
        lemma_kept_or_trailing(text, index);
        assert(!is_trailing(text, index));
        assert(text.skip(index) =~= seq![text[index]] + text.skip(index + 1));
    } else {
        assert(text.skip(index) =~= Seq::<char>::empty());
    }
}

/// A buffer starts with the text of its file. Where there is no such file it starts
/// without text; where something else is wrong, that is the error.
pub proof fn law_buffer_starts_with_its_file<E>(file: FileState<E>)
    ensures
        file matches FileState::Present(Ok(text)) ==> initial_text(file) == Ok::<Seq<char>, E>(
            contents(text),
        ),
        file matches FileState::Present(Err(error)) ==> initial_text(file) == Err::<Seq<char>, E>(
            error,
        ),
        file matches FileState::Absent(Ok(_)) ==> initial_text(file) == Ok::<Seq<char>, E>(
            Seq::empty(),
        ),
        file matches FileState::Absent(Err(OpenError { not_found, error })) ==> initial_text(file)
            == if not_found {
            Ok::<Seq<char>, E>(Seq::empty())
        } else {
            Err(error)
        },
{
}

/// A buffer that was opened has the text and the file that it was opened with, and no
/// changes. The cursor and the view are at the start, and nothing is selected or kept.
pub proof fn law_opened_buffer_is_at_its_start(
    mode_name: Seq<char>,
    language: bool,
    text: Seq<char>,
    file_path: Seq<char>,
)
    ensures
        ({
            let buffer = opened(mode_name, language, text, file_path);
            &&& buffer.mode_name == mode_name
            &&& buffer.language == language
            &&& buffer.text == text
            &&& buffer.file_path == Some(file_path)
            &&& buffer.modified == ModifiedStatus::Unchanged
            &&& buffer.yanked is None
            &&& buffer.first_line == 0
            &&& buffer.cursor.start == 0 && buffer.cursor.end == 1
            &&& buffer.cursor.column is None
            &&& buffer.cursor.select is None
        }),
{
}

/// The place that a place in one text has in another: the same line, or the last one if
/// there are fewer, and as far from its start as before, but no further than to the last
/// character of the line.
pub proof fn law_places_keep_line_and_offset(old_text: Seq<char>, new_text: Seq<char>, index: int)
    requires
        0 <= index <= old_text.len(),
    ensures
        ({
            let old_line = line_of(old_text, index);
            let old_offset = index - line_start(old_text, old_line);
            let place = same_place(old_text, new_text, index);
            let last = line_count(new_text) - 1;
            let line = if old_line <= last {
                old_line
            } else {
                last
            };
            let offset = place - line_start(new_text, line);
            let length = line_start(new_text, line + 1) - line_start(new_text, line);
            &&& 0 <= offset <= old_offset
            &&& length == 0 ==> offset == 0
            &&& length > 0 ==> offset < length
            &&& old_offset < length ==> offset == old_offset
            &&& 0 < length <= old_offset ==> offset == length - 1
            &&& 0 <= place <= new_text.len()
        }),
{
    lemma_line_of_contains(old_text, index);
    lemma_first_line(new_text);
    let last = line_count(new_text) - 1;
    let old_line = line_of(old_text, index);
    let line = if old_line <= last {
        old_line
    } else {
        last
    };
    lemma_line_bounds(new_text, line);
}

/// A save that is done leaves the text that was written, without changes to it. The
/// cursor is on the cluster that ends next behind its old place; a text without
/// characters has it at its start. Nothing is selected any more, and all else stays.
pub proof fn law_save_brings_its_text(buffer: BufferModel, text: Seq<char>)
    requires
        0 <= buffer.cursor.start <= buffer.text.len(),
    ensures
        ({
            let after = saved(buffer, text);
            let end = next_boundary(text, same_place(buffer.text, text, buffer.cursor.start));
            &&& after == (BufferModel {
                text,
                modified: ModifiedStatus::Unchanged,
                cursor: after.cursor,
                ..buffer
            })
            &&& text.len() == 0 ==> after.cursor.start == 0 && after.cursor.end == 1
            &&& text.len() > 0 ==> after.cursor.end == end && after.cursor.start == prev_boundary(
                text,
                end,
            ) < end
            &&& after.cursor.column is None
            &&& after.cursor.select is None
        }),
{
    let place = same_place(buffer.text, text, buffer.cursor.start);
    law_places_keep_line_and_offset(buffer.text, text, buffer.cursor.start);
    lemma_boundaries(text, place);
    lemma_boundaries(text, next_boundary(text, place));
}

/// A save that begins changes nothing but that it has begun.
pub proof fn law_save_begins(buffer: BufferModel, time: Instant)
    ensures
        saving(buffer, time) == (BufferModel { modified: ModifiedStatus::Saving(time), ..buffer }),
{
}

} // verus!
