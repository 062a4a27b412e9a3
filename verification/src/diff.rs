//! What an edit has changed, as a parser is told of it.

use vstd::prelude::*;

verus! {

/// Where a text was changed, and how much was taken out and put in there.
#[derive(Clone, Copy, Debug, PartialEq, Structural)]
pub struct OpaqueDiff {
    pub byte_index: usize,
    pub old_length: usize,
    pub new_length: usize,
}

/// What a change stands for.
pub struct DiffModel {
    pub byte_index: int,
    pub old_length: int,
    pub new_length: int,
}

impl DiffModel {
    /// Whether the ends of the change can be counted.
    pub open spec fn countable(self) -> bool {
        &&& self.byte_index + self.old_length <= usize::MAX
        &&& self.byte_index + self.new_length <= usize::MAX
    }
}

/// What changes nothing.
pub open spec fn no_change() -> DiffModel {
    DiffModel { byte_index: 0, old_length: 0, new_length: 0 }
}

impl View for OpaqueDiff {
    type V = DiffModel;

    open spec fn view(&self) -> DiffModel {
        DiffModel {
            byte_index: self.byte_index as int,
            old_length: self.old_length as int,
            new_length: self.new_length as int,
        }
    }
}

impl OpaqueDiff {
    /// A change at a place, from a length to another.
    pub fn new(byte_index: usize, old_length: usize, new_length: usize) -> (diff: Self)
        ensures
            diff.byte_index == byte_index,
            diff.old_length == old_length,
            diff.new_length == new_length,
    {
        OpaqueDiff { byte_index, old_length, new_length }
    }

    /// The change that changes nothing.
    pub fn no_diff() -> (diff: Self)
        ensures
            diff@ == no_change(),
    {
        OpaqueDiff { byte_index: 0, old_length: 0, new_length: 0 }
    }

    /// Whether nothing is changed.
    pub fn is_empty(&self) -> (empty: bool)
        ensures
            empty == (self@ == no_change()),
    {
        self.byte_index == 0 && self.old_length == 0 && self.new_length == 0
    }
}

/// A place in a text by row and column.
#[derive(Clone, Copy, Debug, PartialEq, Eq, Structural)]
pub struct Point {
    pub row: usize,
    pub column: usize,
}

/// A change as an incremental parser takes it.
#[derive(Clone, Copy, Debug, PartialEq, Eq, Structural)]
pub struct InputEdit {
    pub start_byte: usize,
    pub old_end_byte: usize,
    pub new_end_byte: usize,
    pub start_position: Point,
    pub old_end_position: Point,
    pub new_end_position: Point,
}

/// Whether an edit tells a parser of the given change. Rows and columns are not
/// kept track of: all of them are zero.
pub open spec fn describes(edit: InputEdit, diff: DiffModel) -> bool {
    let origin = Point { row: 0, column: 0 };
    &&& edit.start_byte == diff.byte_index
    &&& edit.old_end_byte == diff.byte_index + diff.old_length
    &&& edit.new_end_byte == diff.byte_index + diff.new_length
    &&& edit.start_position == origin
    &&& edit.old_end_position == origin
    &&& edit.new_end_position == origin
}

impl InputEdit {
    /// Tells a parser of a change.
    pub fn of(diff: &OpaqueDiff) -> (edit: Self)
        requires
            diff@.countable(),
        ensures
            describes(edit, diff@),
    {
        let origin = Point { row: 0, column: 0 };
        InputEdit {
            start_byte: diff.byte_index,
            old_end_byte: diff.byte_index + diff.old_length,
            new_end_byte: diff.byte_index + diff.new_length,
            start_position: origin,
            old_end_position: origin,
            new_end_position: origin,
        }
    }
}

} // verus!
