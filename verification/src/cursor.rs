//! The cursor and its motions.

use ropey::Rope;
use std::ops::Range;
use vstd::prelude::*;

use crate::grapheme::{
    lemma_total_length_step, measure_clusters, measured, next_boundary, next_grapheme_boundary,
    prev_boundary, prev_grapheme_boundary, total_length, total_width, Cluster,
};
use crate::lines::{
    break_start, lemma_first_line, lemma_line_bounds, lemma_line_of_contains, line_body, line_count,
    line_end, line_of, line_start,
};
use crate::rope::{contents, text_range};
use crate::utf8::{lemma_byte_len_bounds, storable};

verus! {

/// Where the user is in a text.
#[derive(Debug, PartialEq)]
pub struct Cursor {
    /// The characters under the cursor.
    pub range: Range<usize>,
    /// The column that motions between lines keep to.
    pub visual_horizontal_offset: Option<usize>,
    /// Where the selection was begun.
    pub select: Option<usize>,
}

/// What a cursor stands for.
pub struct CursorModel {
    pub start: int,
    pub end: int,
    pub column: Option<int>,
    pub select: Option<int>,
}

/// A number that may be missing, as a mathematical one.
pub open spec fn optional_int(value: Option<usize>) -> Option<int> {
    match value {
        Some(number) => Some(number as int),
        None => None,
    }
}

impl Clone for Cursor {
    fn clone(&self) -> (copy: Self)
        ensures
            copy == *self,
    {
        Cursor {
            range: self.range.start..self.range.end,
            visual_horizontal_offset: self.visual_horizontal_offset,
            select: self.select,
        }
    }
}

impl View for Cursor {
    type V = CursorModel;

    open spec fn view(&self) -> CursorModel {
        CursorModel {
            start: self.range.start as int,
            end: self.range.end as int,
            column: optional_int(self.visual_horizontal_offset),
            select: optional_int(self.select),
        }
    }
}

/// Whether a cursor is within a text. On a text without characters the cursor may
/// cover the place of the first.
pub open spec fn within(cursor: CursorModel, text: Seq<char>) -> bool {
    &&& 0 <= cursor.start <= cursor.end
    &&& cursor.end <= text.len() || (text.len() == 0 && cursor.start == 0 && cursor.end == 1)
}

/// A cursor moved to the cluster at `index`, with its column forgotten.
pub open spec fn at_cluster(text: Seq<char>, cursor: CursorModel, index: int) -> CursorModel {
    CursorModel { start: index, end: next_boundary(text, index), column: None, ..cursor }
}

/// The cursor on the cluster before; at the start of the text it stays.
pub open spec fn left(text: Seq<char>, cursor: CursorModel) -> CursorModel {
    if cursor.start == 0 {
        cursor
    } else {
        CursorModel {
            start: prev_boundary(text, cursor.start),
            end: cursor.start,
            column: None,
            ..cursor
        }
    }
}

/// The cursor on the cluster behind; at the end of the text it stays.
pub open spec fn right(text: Seq<char>, cursor: CursorModel) -> CursorModel {
    if cursor.end < text.len() {
        at_cluster(text, cursor, cursor.end)
    } else {
        CursorModel { column: None, ..cursor }
    }
}

/// The cursor moved right so many times.
pub open spec fn right_n(text: Seq<char>, cursor: CursorModel, n: nat) -> CursorModel
    decreases n,
{
    if n == 0 {
        cursor
    } else {
        right(text, right_n(text, cursor, (n - 1) as nat))
    }
}

/// The cursor on the first cluster of its line.
pub open spec fn start_of_line(text: Seq<char>, cursor: CursorModel) -> CursorModel {
    at_cluster(text, cursor, line_start(text, line_of(text, cursor.start)))
}

/// The cursor on the line break of its line.
pub open spec fn end_of_line(text: Seq<char>, cursor: CursorModel) -> CursorModel {
    at_cluster(text, cursor, break_start(text, line_of(text, cursor.start)))
}

/// The cursor on the first cluster of the text.
pub open spec fn start_of_buffer(text: Seq<char>, cursor: CursorModel) -> CursorModel {
    at_cluster(text, cursor, 0)
}

/// The cursor on the last cluster of the text.
pub open spec fn end_of_buffer(text: Seq<char>, cursor: CursorModel) -> CursorModel {
    CursorModel {
        start: prev_boundary(text, text.len() as int),
        end: text.len() as int,
        column: None,
        ..cursor
    }
}

/// How many characters of a line come before the first cluster that reaches
/// beyond the given columns.
pub open spec fn chars_within(pieces: Seq<Cluster>, columns: int) -> int
    decreases pieces.len(),
{
    if pieces.len() == 0 || pieces[0].width > columns {
        0
    } else {
        pieces[0].length + chars_within(pieces.drop_first(), columns - pieces[0].width)
    }
}

/// The column behind clusters that start at the left edge, as far as a `usize` can
/// tell.
pub open spec fn column_after(pieces: Seq<Cluster>) -> int {
    let width = total_width(pieces);
    if width <= usize::MAX {
        width
    } else {
        usize::MAX as int
    }
}

/// The column that a motion between lines keeps to: that of the last such motion
/// or else the one that the cursor is in.
pub open spec fn kept_column(text: Seq<char>, cursor: CursorModel) -> int {
    match cursor.column {
        Some(column) => column,
        None => column_after(
            measured(text.subrange(line_start(text, line_of(text, cursor.start)), cursor.start)),
        ),
    }
}

/// A cursor moved to another line: to the last cluster there that starts within
/// the column kept, and not beyond the line break.
pub open spec fn to_line(text: Seq<char>, cursor: CursorModel, line: int) -> CursorModel {
    let column = kept_column(text, cursor);
    let reached = line_start(text, line) + chars_within(measured(line_body(text, line)), column);
    let start = if reached <= break_start(text, line) {
        reached
    } else {
        break_start(text, line)
    };
    CursorModel { start, end: next_boundary(text, start), column: Some(column), ..cursor }
}

/// The cursor on the line before; on the first line it stays.
pub open spec fn up(text: Seq<char>, cursor: CursorModel) -> CursorModel {
    let line = line_of(text, cursor.start);
    if line == 0 {
        cursor
    } else {
        to_line(text, cursor, line - 1)
    }
}

/// The cursor on the line behind. A last line without a character is no line to move
/// to.
pub open spec fn down(text: Seq<char>, cursor: CursorModel) -> CursorModel {
    let line = line_of(text, cursor.start);
    if line_end(text, line) == text.len() {
        cursor
    } else {
        to_line(text, cursor, line + 1)
    }
}

/// The cursor moved up so many times.
pub open spec fn up_n(text: Seq<char>, cursor: CursorModel, n: nat) -> CursorModel
    decreases n,
{
    if n == 0 {
        cursor
    } else {
        up(text, up_n(text, cursor, (n - 1) as nat))
    }
}

/// The cursor moved down so many times.
pub open spec fn down_n(text: Seq<char>, cursor: CursorModel, n: nat) -> CursorModel
    decreases n,
{
    if n == 0 {
        cursor
    } else {
        down(text, down_n(text, cursor, (n - 1) as nat))
    }
}

/// The selection: between the place where it was begun and the cursor, or the
/// characters under the cursor if these are the same or none was begun.
pub open spec fn selected(cursor: CursorModel) -> (int, int) {
    match cursor.select {
        Some(mark) => if mark > cursor.start {
            (cursor.start, mark)
        } else if mark < cursor.start {
            (mark, cursor.start)
        } else {
            (cursor.start, cursor.end)
        },
        None => (cursor.start, cursor.end),
    }
}

proof fn lemma_chars_within_step(pieces: Seq<Cluster>, index: int, columns: int)
    requires
        0 <= index < pieces.len(),
    ensures
        chars_within(pieces.skip(index), columns) == if pieces[index].width > columns {
            0
        } else {
            pieces[index].length + chars_within(
                pieces.skip(index + 1),
                columns - pieces[index].width,
            )
        },
{
    assert(pieces.skip(index)[0] == pieces[index]);
    assert(pieces.skip(index).drop_first() =~= pieces.skip(index + 1));
}

/// The column behind clusters that start at the left edge.
pub fn column_at_end(pieces: &Vec<Cluster>) -> (column: usize)
    ensures
        column == column_after(pieces@),
{
    let mut width: usize = 0;
    let mut exact = true;
    let mut i: usize = 0;
    while i < pieces.len()
        invariant
            i <= pieces.len(),
            exact ==> width == total_width(pieces@.take(i as int)),
            !exact ==> width == usize::MAX && total_width(pieces@.take(i as int)) > usize::MAX,
        decreases pieces.len() - i,
    {
        let next = pieces[i].width;
        assert(pieces@.take(i + 1).drop_last() =~= pieces@.take(i as int));
        if next > usize::MAX - width {
            exact = false;
            width = usize::MAX;
        } else {
            width = width + next;
        }
        i = i + 1;
    }
    assert(pieces@.take(i as int) =~= pieces@);
    width
}

/// How many characters come before the first cluster that reaches beyond the given
/// columns.
pub fn length_within(pieces: &Vec<Cluster>, columns: usize) -> (length: usize)
    requires
        total_length(pieces@) <= usize::MAX,
    ensures
        length == chars_within(pieces@, columns as int),
        length <= total_length(pieces@),
{
    let mut left: usize = columns;
    let mut length: usize = 0;
    let mut i: usize = 0;
    assert(pieces@.skip(0) =~= pieces@);
    assert(pieces@.take(0) =~= Seq::<Cluster>::empty());
    while i < pieces.len()
        invariant
            total_length(pieces@) <= usize::MAX,
            i <= pieces.len(),
            length == total_length(pieces@.take(i as int)),
            chars_within(pieces@, columns as int) == length + chars_within(
                pieces@.skip(i as int),
                left as int,
            ),
        decreases pieces.len() - i,
    {
        proof {
            lemma_chars_within_step(pieces@, i as int, left as int);
            lemma_total_length_step(pieces@, i as int);
        }
        if pieces[i].width > left {
            return length;
        }
        length = length + pieces[i].length;
        left = left - pieces[i].width;
        i = i + 1;
    }
    assert(pieces@.skip(i as int).len() == 0);
    assert(pieces@.take(i as int) =~= pieces@);
    length
}

/// The place of a cluster, or, where there is none, of the first character.
pub open spec fn cluster_or_first(start: int, end: int) -> (int, int) {
    if start != end {
        (start, end)
    } else {
        (0, 1)
    }
}

/// The place of a cluster that starts and ends as given, or, where it is none, that
/// of the first character.
pub fn place_on_cluster(start: usize, end: usize) -> (range: Range<usize>)
    ensures
        (range.start as int, range.end as int) == cluster_or_first(start as int, end as int),
{
    if start != end {
        start..end
    } else {
        0..1
    }
}

/// Where the line break of a line starts; without one, the end of the text.
fn find_break(text: &Rope, line: usize) -> (start: usize)
    requires
        storable(contents(*text)),
        line < line_count(contents(*text)),
    ensures
        start == break_start(contents(*text), line as int),
        line_start(contents(*text), line as int) <= start <= contents(*text).len(),
{
    let ghost chars = contents(*text);
    proof {
        lemma_byte_len_bounds(chars);
        lemma_first_line(chars);
        lemma_line_bounds(chars, line as int);
    }
    let begin = text.line_to_char(line);
    let end = text.line_to_char(line + 1);
    if line + 1 >= text.len_lines() {
        end
    } else if text.char(end - 1) == '\n' && end - 1 > begin && text.char(end - 2) == '\r' {
        end - 2
    } else {
        end - 1
    }
}

impl Cursor {
    /// A cursor at the start of a text.
    pub fn new() -> (cursor: Self)
        ensures
            cursor@ == (CursorModel { start: 0, end: 1, column: None, select: None }),
    {
        Cursor { range: 0..1, visual_horizontal_offset: None, select: None }
    }

    /// The selected characters.
    pub fn selection(&self) -> (range: Range<usize>)
        ensures
            (range.start as int, range.end as int) == selected(self@),
    {
        match self.select {
            Some(select) if select > self.range.start => self.range.start..select,
            Some(select) if select < self.range.start => select..self.range.start,
            _ => self.range.start..self.range.end,
        }
    }

    /// Moves to the cluster at a position.
    fn move_to_cluster(&mut self, text: &Rope, index: usize)
        requires
            storable(contents(*text)),
            index <= contents(*text).len(),
        ensures
            final(self)@ == at_cluster(contents(*text), old(self)@, index as int),
            within(final(self)@, contents(*text)),
    {
        self.range = index..next_grapheme_boundary(text, index);
        self.visual_horizontal_offset = None;
    }

    /// Moves to the cluster before this one.
    pub fn move_left(&mut self, text: &Rope)
        requires
            storable(contents(*text)),
            within(old(self)@, contents(*text)),
        ensures
            final(self)@ == left(contents(*text), old(self)@),
            within(final(self)@, contents(*text)),
    {
        if self.range.start > 0 {
            self.range = prev_grapheme_boundary(text, self.range.start)..self.range.start;
            self.visual_horizontal_offset = None;
        }
    }

    /// Moves to the cluster behind this one.
    pub fn move_right(&mut self, text: &Rope)
        requires
            storable(contents(*text)),
            within(old(self)@, contents(*text)),
        ensures
            final(self)@ == right(contents(*text), old(self)@),
            within(final(self)@, contents(*text)),
    {
        if self.range.end < text.len_chars() {
            self.move_to_cluster(text, self.range.end);
        } else {
            self.visual_horizontal_offset = None;
        }
    }

    /// Moves right so many times.
    pub fn move_right_n(&mut self, text: &Rope, n: usize)
        requires
            storable(contents(*text)),
            within(old(self)@, contents(*text)),
        ensures
            final(self)@ == right_n(contents(*text), old(self)@, n as nat),
            within(final(self)@, contents(*text)),
    {
        let ghost before = self@;
        let mut i: usize = 0;
        while i < n
            invariant
                i <= n,
                storable(contents(*text)),
                within(self@, contents(*text)),
                self@ == right_n(contents(*text), before, i as nat),
            decreases n - i,
        {
            self.move_right(text);
            i = i + 1;
        }
    }

    /// Moves to another line, in the column that motions between lines keep to.
    fn move_to_line(&mut self, text: &Rope, line: usize)
        requires
            storable(contents(*text)),
            within(old(self)@, contents(*text)),
            old(self)@.start <= contents(*text).len(),
            line < line_count(contents(*text)),
        ensures
            final(self)@ == to_line(contents(*text), old(self)@, line as int),
            within(final(self)@, contents(*text)),
    {
        let ghost chars = contents(*text);
        proof {
            lemma_byte_len_bounds(chars);
            lemma_first_line(chars);
            lemma_line_of_contains(chars, self.range.start as int);
            lemma_line_bounds(chars, line as int);
        }
        let column = match self.visual_horizontal_offset {
            Some(column) => column,
            None => {
                let current = text.line_to_char(text.char_to_line(self.range.start));
                let before = text_range(text, current, self.range.start);
                column_at_end(&measure_clusters(before.as_str()))
            },
        };
        let begin = text.line_to_char(line);
        let end = find_break(text, line);
        let body = text_range(text, begin, end);
        let start = begin + length_within(&measure_clusters(body.as_str()), column);
        self.range = start..next_grapheme_boundary(text, start);
        self.visual_horizontal_offset = Some(column);
    }

    /// Moves to the line before this one.
    pub fn move_up(&mut self, text: &Rope)
        requires
            storable(contents(*text)),
            within(old(self)@, contents(*text)),
        ensures
            final(self)@ == up(contents(*text), old(self)@),
            within(final(self)@, contents(*text)),
    {
        proof {
            lemma_line_of_contains(contents(*text), self.range.start as int);
        }
        let line = text.char_to_line(self.range.start);
        if line > 0 {
            self.move_to_line(text, line - 1);
        }
    }

    /// Moves to the line behind this one, unless the text ends there.
    pub fn move_down(&mut self, text: &Rope)
        requires
            storable(contents(*text)),
            within(old(self)@, contents(*text)),
        ensures
            final(self)@ == down(contents(*text), old(self)@),
            within(final(self)@, contents(*text)),
    {
        let ghost chars = contents(*text);
        proof {
            lemma_byte_len_bounds(chars);
            lemma_first_line(chars);
            lemma_line_of_contains(chars, self.range.start as int);
        }
        let line = text.char_to_line(self.range.start);
        if text.line_to_char(line + 1) != text.len_chars() {
            self.move_to_line(text, line + 1);
        }
    }

    /// Moves to the first cluster of the line.
    pub fn move_to_start_of_line(&mut self, text: &Rope)
        requires
            storable(contents(*text)),
            within(old(self)@, contents(*text)),
        ensures
            final(self)@ == start_of_line(contents(*text), old(self)@),
            within(final(self)@, contents(*text)),
    {
        proof {
            lemma_byte_len_bounds(contents(*text));
            lemma_first_line(contents(*text));
            lemma_line_of_contains(contents(*text), self.range.start as int);
        }
        let line = text.char_to_line(self.range.start);
        self.move_to_cluster(text, text.line_to_char(line));
    }

    /// Moves to the line break of the line.
    pub fn move_to_end_of_line(&mut self, text: &Rope)
        requires
            storable(contents(*text)),
            within(old(self)@, contents(*text)),
        ensures
            final(self)@ == end_of_line(contents(*text), old(self)@),
            within(final(self)@, contents(*text)),
    {
        proof {
            lemma_line_of_contains(contents(*text), self.range.start as int);
        }
        let line = text.char_to_line(self.range.start);
        self.move_to_cluster(text, find_break(text, line));
    }

    /// Moves to the first cluster of the text.
    pub fn move_to_start_of_buffer(&mut self, text: &Rope)
        requires
            storable(contents(*text)),
        ensures
            final(self)@ == start_of_buffer(contents(*text), old(self)@),
            within(final(self)@, contents(*text)),
    {
        self.move_to_cluster(text, 0);
    }

    /// Moves to the last cluster of the text.
    pub fn move_to_end_of_buffer(&mut self, text: &Rope)
        requires
            storable(contents(*text)),
        ensures
            final(self)@ == end_of_buffer(contents(*text), old(self)@),
            within(final(self)@, contents(*text)),
    {
        let end = text.len_chars();
        self.range = prev_grapheme_boundary(text, end)..end;
        self.visual_horizontal_offset = None;
    }
}

} // verus!
