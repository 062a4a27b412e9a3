//! The buffer: a text that is being edited.

use ropey::Rope;
use std::time::Instant;
use vstd::prelude::*;

use crate::cursor::{within, Cursor, CursorModel};
use crate::rope::contents;
use crate::utf8::storable;

verus! {

/// A moment of the system's clock, which is carried along and never read.
#[verifier::external_type_specification]
#[verifier::external_body]
pub struct ExInstant(Instant);

/// What kind of text a buffer holds.
pub struct Mode {
    pub name: String,
    /// Whether there is a grammar for this kind of text.
    pub language: bool,
}

/// Whether a text differs from what is in its file.
#[derive(Clone, Copy, Debug)]
pub enum ModifiedStatus {
    Changed,
    Unchanged,
    /// It is being written since the given moment.
    Saving(Instant),
}

/// A text that is being edited.
pub struct Buffer {
    pub mode: Mode,
    pub text: Rope,
    /// What was last cut or copied.
    pub yanked_line: Option<Rope>,
    pub has_unsaved_changes: ModifiedStatus,
    /// The file of the text, as it is shown.
    pub file_path: Option<String>,
    pub cursor: Cursor,
    /// The first line in view.
    pub first_line: usize,
}

/// What a buffer stands for.
#[verifier::ext_equal]
pub struct BufferModel {
    pub mode_name: Seq<char>,
    pub language: bool,
    pub text: Seq<char>,
    pub yanked: Option<Seq<char>>,
    pub modified: ModifiedStatus,
    pub file_path: Option<Seq<char>>,
    pub cursor: CursorModel,
    pub first_line: int,
}

/// The characters of a rope that may be missing.
pub open spec fn optional_contents(rope: Option<Rope>) -> Option<Seq<char>> {
    match rope {
        Some(rope) => Some(contents(rope)),
        None => None,
    }
}

/// The characters of a string that may be missing.
pub open spec fn optional_chars(string: Option<String>) -> Option<Seq<char>> {
    match string {
        Some(string) => Some(string@),
        None => None,
    }
}

impl View for Buffer {
    type V = BufferModel;

    open spec fn view(&self) -> BufferModel {
        BufferModel {
            mode_name: self.mode.name@,
            language: self.mode.language,
            text: contents(self.text),
            yanked: optional_contents(self.yanked_line),
            modified: self.has_unsaved_changes,
            file_path: optional_chars(self.file_path),
            cursor: self.cursor@,
            first_line: self.first_line as int,
        }
    }
}

impl BufferModel {
    /// What every operation keeps: the texts can be held in a string, the cursor
    /// is within the text, and the first line in view is one that a text can have.
    pub open spec fn valid(self) -> bool {
        &&& storable(self.text)
        &&& self.yanked matches Some(yanked) ==> storable(yanked)
        &&& within(self.cursor, self.text)
        &&& self.cursor.select matches Some(mark) ==> mark >= 0
        &&& 0 <= self.first_line <= isize::MAX
    }
}

/// What was found where the file of a buffer should be.
pub enum FileState<E> {
    /// The file is there: its text, or why it could not be read.
    Present(Result<Rope, E>),
    /// The file is not there: why it could not be opened, if it could not.
    Absent(Result<(), OpenError<E>>),
}

/// Why a file could not be opened.
pub struct OpenError<E> {
    /// Whether the reason is that there is no such file.
    pub not_found: bool,
    pub error: E,
}

/// The text that a buffer starts with. A file that is not there is taken for one
/// without text, unless something else is wrong with it.
pub open spec fn initial_text<E>(file: FileState<E>) -> Result<Seq<char>, E> {
    match file {
        FileState::Present(Ok(text)) => Ok(contents(text)),
        FileState::Present(Err(error)) => Err(error),
        FileState::Absent(Ok(_)) => Ok(Seq::empty()),
        FileState::Absent(Err(open)) => if open.not_found {
            Ok(Seq::empty())
        } else {
            Err(open.error)
        },
    }
}

/// A buffer as it is when its file has been opened.
pub open spec fn opened(
    mode_name: Seq<char>,
    language: bool,
    text: Seq<char>,
    file_path: Seq<char>,
) -> BufferModel {
    BufferModel {
        mode_name,
        language,
        text,
        yanked: None,
        modified: ModifiedStatus::Unchanged,
        file_path: Some(file_path),
        cursor: CursorModel { start: 0, end: 1, column: None, select: None },
        first_line: 0,
    }
}

/// A text that is to be written to a file.
pub struct SaveRequest {
    pub file_path: String,
    pub text: Rope,
}

/// The buffer is being saved since `time`.
pub open spec fn saving(buffer: BufferModel, time: Instant) -> BufferModel {
    BufferModel { modified: ModifiedStatus::Saving(time), ..buffer }
}

/// Whether a request asks for the text of a buffer to be written to its file. A
/// buffer without a file asks for nothing.
pub open spec fn asks_to_save(request: Option<SaveRequest>, buffer: BufferModel) -> bool {
    match (request, buffer.file_path) {
        (Some(request), Some(file_path)) => {
            &&& request.file_path@ == file_path
            &&& contents(request.text) == buffer.text
        },
        (None, None) => true,
        _ => false,
    }
}

impl Buffer {
    /// Makes the buffer of a file.
    pub fn from_file<E>(file_path: String, mode: Mode, file: FileState<E>) -> (result: Result<
        Self,
        E,
    >)
        ensures
            match (initial_text(file), result) {
                (Ok(text), Ok(buffer)) => {
                    &&& buffer@ == opened(mode.name@, mode.language, text, file_path@)
                    &&& storable(text) ==> buffer@.valid()
                },
                (Err(expected), Err(error)) => error == expected,
                _ => false,
            },
    {
        let text = match file {
            FileState::Present(Ok(text)) => text,
            FileState::Present(Err(error)) => {
                return Err(error);
            },
            FileState::Absent(Ok(_)) => Rope::new(),
            FileState::Absent(Err(open)) => {
                if !open.not_found {
                    return Err(open.error);
                }
                Rope::new()
            },
        };
        Ok(
            Buffer {
                mode,
                text,
                yanked_line: None,
                has_unsaved_changes: ModifiedStatus::Unchanged,
                file_path: Some(file_path),
                cursor: Cursor::new(),
                first_line: 0,
            },
        )
    }

    /// Begins to save the buffer: says what is to be written, if it has a file.
    pub fn spawn_save_file(&mut self, time: Instant) -> (request: Option<SaveRequest>)
        ensures
            final(self)@ == saving(old(self)@, time),
            asks_to_save(request, old(self)@),
    {
        self.has_unsaved_changes = ModifiedStatus::Saving(time);
        match &self.file_path {
            Some(file_path) => Some(
                SaveRequest { file_path: file_path.clone(), text: self.text.clone() },
            ),
            None => None,
        }
    }
}

} // verus!
