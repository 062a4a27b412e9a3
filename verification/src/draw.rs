//! What has to be drawn of a buffer's text.
//!
//! The colours of the text come from a syntax tree that is not at hand here. So
//! drawing stops where it has to be asked, and goes on with the answer.

use vstd::prelude::*;

use crate::buffer::{Buffer, BufferModel};
use crate::cursor::optional_int;
use crate::geometry::{inner_rect, Rect, Size};
use crate::grapheme::{
    lemma_total_length_step, measure_clusters, measured, total_length, Cluster,
};
use crate::lines::{
    lemma_first_line, lemma_line_bounds, lemma_line_of_contains, line_count, line_end, line_start,
    line_text,
};
use crate::rope::text_range;
use crate::scroll::{cursor_line, scrolled};
use crate::theme::{Style, Theme};
use crate::utf8::{
    byte_len, byte_offset, char_at_byte, lemma_byte_len_bounds, lemma_char_at_byte_bounds,
    lemma_char_at_byte_order,
};

verus! {

/// Where and how a buffer is drawn.
#[derive(Clone, Copy, Debug)]
pub struct Context {
    pub frame: Rect,
    pub frame_id: usize,
    /// Whether what is typed goes to this buffer.
    pub focused: bool,
    pub theme: Theme,
}

impl Context {
    /// The same, with another frame.
    pub fn set_frame(&self, frame: Rect) -> (context: Self)
        ensures
            context == (Context { frame, ..*self }),
    {
        Context { frame, ..*self }
    }
}

/// What a syntax tree says of a range of bytes.
#[derive(Clone, Copy, Debug)]
pub struct Trace<S> {
    pub start: usize,
    pub end: usize,
    /// The scope that decides the colour, if there is one.
    pub scope: Option<S>,
    /// Whether the text is in error there.
    pub is_error: bool,
}

/// What the style of a cluster depends on.
#[derive(Clone, Copy, Debug, PartialEq)]
pub enum DrawStyle<S> {
    /// The style is settled.
    Fixed(Style),
    /// The style follows from the syntax at a character.
    Syntax {
        char_index: usize,
        focused: bool,
        line_under_cursor: bool,
        scope: Option<S>,
        is_error: bool,
    },
}

/// A step of drawing.
#[derive(Clone, Copy, Debug, PartialEq)]
pub enum DrawCommand<S> {
    /// A region is emptied.
    ClearRegion { region: Rect, fill: Style },
    /// A character is drawn.
    DrawChar { x: usize, y: usize, style: DrawStyle<S>, character: char },
    /// The characters of the text from `start` up to `end` are drawn.
    DrawText { x: usize, y: usize, style: DrawStyle<S>, start: usize, end: usize },
}

/// A line that is being drawn.
pub struct LinePainter<S> {
    pub line_index: usize,
    pub frame: Rect,
    pub clusters: Vec<Cluster>,
    /// How many clusters are drawn.
    pub drawn: usize,
    /// The first character of the next cluster.
    pub char_index: usize,
    /// The column of the next cluster.
    pub visual_x: usize,
    /// The column of the cursor in the frame, as far as it has been found.
    pub visual_cursor_x: usize,
    /// Whether the syntax was asked for at the next cluster.
    pub asked: bool,
    pub finished: bool,
    pub commands: Vec<DrawCommand<S>>,
}

/// What a line that is being drawn stands for.
#[verifier::ext_equal]
pub struct LineModel<S> {
    pub line: int,
    pub frame: Rect,
    pub clusters: Seq<Cluster>,
    pub drawn: int,
    pub char_index: int,
    pub visual_x: int,
    pub visual_cursor_x: int,
    pub asked: bool,
    pub finished: bool,
    pub commands: Seq<DrawCommand<S>>,
}

impl<S> View for LinePainter<S> {
    type V = LineModel<S>;

    open spec fn view(&self) -> LineModel<S> {
        LineModel {
            line: self.line_index as int,
            frame: self.frame,
            clusters: self.clusters@,
            drawn: self.drawn as int,
            char_index: self.char_index as int,
            visual_x: self.visual_x as int,
            visual_cursor_x: self.visual_cursor_x as int,
            asked: self.asked,
            finished: self.finished,
            commands: self.commands@,
        }
    }
}

impl<S> LineModel<S> {
    /// Whether this is a line of the text, drawn as far as it says.
    pub open spec fn belongs_to(self, text: Seq<char>) -> bool {
        &&& self.frame.bounded()
        &&& 0 <= self.line < line_count(text)
        &&& forall|i: int| 0 <= i < self.clusters.len() ==> (#[trigger] self.clusters[i]).length > 0
        &&& !self.finished ==> {
            &&& total_length(self.clusters) == line_text(text, self.line).len()
            &&& 0 <= self.drawn <= self.clusters.len()
            &&& self.char_index == line_start(text, self.line) + total_length(
                self.clusters.take(self.drawn),
            )
            &&& self.frame.origin.x <= self.visual_x <= self.frame.origin.x
                + self.frame.size.width
        }
    }
}

/// A line before its first cluster is drawn. The line under the cursor of a
/// focused buffer stands out.
pub open spec fn line_begun<S>(
    buffer: BufferModel,
    context: Context,
    line: int,
    frame: Rect,
) -> LineModel<S> {
    LineModel {
        line,
        frame,
        clusters: measured(line_text(buffer.text, line)),
        drawn: 0,
        char_index: line_start(buffer.text, line),
        visual_x: frame.origin.x as int,
        visual_cursor_x: 0,
        asked: false,
        finished: false,
        commands: if cursor_line(buffer) == line && context.focused {
            seq![
                DrawCommand::ClearRegion {
                    region: Rect {
                        origin: frame.origin,
                        size: Size { width: frame.size.width, height: 1 },
                    },
                    fill: context.theme.syntax.text_current_line,
                },
            ]
        } else {
            Seq::empty()
        },
    }
}

/// What draws a cluster: a tab is drawn as spaces, and so is what takes no
/// column.
pub open spec fn cluster_commands<S>(
    cluster: Cluster,
    x: int,
    y: usize,
    char_index: int,
    style: DrawStyle<S>,
) -> Seq<DrawCommand<S>> {
    if cluster.is_tab {
        Seq::new(
            cluster.width as nat,
            |i: int| DrawCommand::DrawChar { x: (x + i) as usize, y, style, character: ' ' },
        )
    } else if cluster.width == 0 {
        seq![DrawCommand::DrawChar { x: x as usize, y, style, character: ' ' }]
    } else {
        seq![
            DrawCommand::DrawText {
                x: x as usize,
                y,
                style,
                start: char_index as usize,
                end: (char_index + cluster.length) as usize,
            },
        ]
    }
}

/// The style of the next cluster.
pub open spec fn cluster_style<S>(
    buffer: BufferModel,
    context: Context,
    line: LineModel<S>,
    trace: Trace<S>,
) -> DrawStyle<S> {
    DrawStyle::Syntax {
        char_index: line.char_index as usize,
        focused: context.focused,
        line_under_cursor: cursor_line(buffer) == line.line,
        scope: trace.scope,
        is_error: trace.is_error,
    }
}

/// The line once the column of the cursor has been looked for at the next
/// cluster.
pub open spec fn cursor_found<S>(
    buffer: BufferModel,
    context: Context,
    line: LineModel<S>,
) -> LineModel<S> {
    if context.focused && buffer.cursor.start <= line.char_index < buffer.cursor.end {
        LineModel { visual_cursor_x: line.visual_x - line.frame.origin.x, ..line }
    } else {
        line
    }
}

/// The line with one more cluster drawn.
pub open spec fn cluster_drawn<S>(
    buffer: BufferModel,
    context: Context,
    line: LineModel<S>,
    trace: Trace<S>,
) -> LineModel<S> {
    let cluster = line.clusters[line.drawn];
    LineModel {
        drawn: line.drawn + 1,
        char_index: line.char_index + cluster.length,
        visual_x: line.visual_x + cluster.width,
        asked: false,
        commands: line.commands + cluster_commands(
            cluster,
            line.visual_x,
            line.frame.origin.y,
            line.char_index,
            cluster_style(buffer, context, line, trace),
        ),
        ..line
    }
}

/// The line when nothing more of it is drawn. A cursor behind the last character
/// of the text is drawn in the first column of the last line.
pub open spec fn line_finished<S>(
    buffer: BufferModel,
    context: Context,
    line: LineModel<S>,
) -> LineModel<S> {
    LineModel {
        finished: true,
        commands: if line.line == line_count(buffer.text) - 1 && buffer.cursor.start
            == buffer.text.len() {
            line.commands.push(
                DrawCommand::DrawChar {
                    x: line.frame.origin.x,
                    y: line.frame.origin.y,
                    style: DrawStyle::Fixed(
                        if context.focused {
                            context.theme.syntax.cursor_focused
                        } else {
                            context.theme.syntax.cursor_unfocused
                        },
                    ),
                    character: ' ',
                },
            )
        } else {
            line.commands
        },
        ..line
    }
}

/// The line drawn on, as far as the trace reaches: to its end, to the edge of the
/// frame, or to a cluster at whose first byte the syntax has to be asked for.
pub open spec fn line_drawn<S>(
    buffer: BufferModel,
    context: Context,
    traceable: bool,
    line: LineModel<S>,
    trace: Trace<S>,
) -> (LineModel<S>, Option<int>)
    decreases line.clusters.len() - line.drawn,
{
    if line.finished {
        (line, None)
    } else if line.drawn < 0 || line.drawn >= line.clusters.len() {
        (line_finished(buffer, context, line), None)
    } else {
        let byte = byte_offset(buffer.text, line.char_index);
        let found = cursor_found(buffer, context, line);
        let width = line.clusters[line.drawn].width;
        if traceable && !line.asked && !(trace.start <= byte < trace.end) {
            (LineModel { asked: true, ..line }, Some(byte))
        } else if line.visual_x + width > line.frame.origin.x + line.frame.size.width {
            (line_finished(buffer, context, found), None)
        } else {
            line_drawn(
                buffer,
                context,
                traceable,
                cluster_drawn(buffer, context, found, trace),
                trace,
            )
        }
    }
}

/// A text that is being drawn, line by line.
pub struct TextPainter<S> {
    pub frame: Rect,
    pub first_line: usize,
    /// How many lines are in view.
    pub rows: usize,
    /// How many of them are drawn.
    pub row: usize,
    /// The column of the cursor in the frame, as far as it has been found.
    pub visual_cursor_x: usize,
    /// The line that is being drawn.
    pub line: LinePainter<S>,
    /// What draws the lines before it.
    pub commands: Vec<DrawCommand<S>>,
}

/// What a text that is being drawn stands for.
#[verifier::ext_equal]
pub struct TextModel<S> {
    pub frame: Rect,
    pub first_line: int,
    pub rows: int,
    pub row: int,
    pub visual_cursor_x: int,
    pub line: LineModel<S>,
    pub commands: Seq<DrawCommand<S>>,
}

impl<S> View for TextPainter<S> {
    type V = TextModel<S>;

    open spec fn view(&self) -> TextModel<S> {
        TextModel {
            frame: self.frame,
            first_line: self.first_line as int,
            rows: self.rows as int,
            row: self.row as int,
            visual_cursor_x: self.visual_cursor_x as int,
            line: self.line@,
            commands: self.commands@,
        }
    }
}

impl<S> TextModel<S> {
    /// Whether this is the text of a buffer, drawn as far as it says.
    pub open spec fn belongs_to(self, text: Seq<char>) -> bool {
        &&& self.frame.bounded()
        &&& 0 <= self.row <= self.rows <= self.frame.size.height
        &&& 0 <= self.first_line
        &&& self.first_line + self.rows <= line_count(text)
        &&& self.line.belongs_to(text)
    }
}

/// How many lines are in view.
pub open spec fn rows_in_view(buffer: BufferModel, frame: Rect) -> int {
    let left = line_count(buffer.text) - buffer.first_line;
    if left <= frame.size.height {
        left
    } else {
        frame.size.height as int
    }
}

/// The first line in view, of which nothing is drawn.
pub open spec fn text_begun<S>(buffer: BufferModel, context: Context) -> TextModel<S> {
    TextModel {
        frame: context.frame,
        first_line: buffer.first_line,
        rows: rows_in_view(buffer, context.frame),
        row: 0,
        visual_cursor_x: 0,
        line: line_begun(
            buffer,
            context,
            buffer.first_line,
            context.frame.without(0, 0, 0, 0),
        ),
        commands: Seq::empty(),
    }
}

/// The text with the line that is being drawn at its end.
pub open spec fn row_drawn<S>(
    buffer: BufferModel,
    context: Context,
    text: TextModel<S>,
    line: LineModel<S>,
) -> TextModel<S> {
    let row = text.row + 1;
    TextModel {
        row,
        visual_cursor_x: if text.visual_cursor_x >= line.visual_cursor_x {
            text.visual_cursor_x
        } else {
            line.visual_cursor_x
        },
        line: if row < text.rows {
            line_begun(
                buffer,
                context,
                text.first_line + row,
                text.frame.without(row, 0, 0, 0),
            )
        } else {
            LineModel { commands: Seq::empty(), ..line }
        },
        commands: text.commands + line.commands,
        ..text
    }
}

/// The text drawn on, as far as the trace reaches.
pub open spec fn text_drawn<S>(
    buffer: BufferModel,
    context: Context,
    traceable: bool,
    text: TextModel<S>,
    trace: Trace<S>,
) -> (TextModel<S>, Option<int>)
    decreases text.rows - text.row,
{
    if text.row >= text.rows {
        (text, None)
    } else {
        let (line, question) = line_drawn(buffer, context, traceable, text.line, trace);
        match question {
            Some(byte) => (TextModel { line, ..text }, Some(byte)),
            None => text_drawn(
                buffer,
                context,
                traceable,
                row_drawn(buffer, context, text, line),
                trace,
            ),
        }
    }
}

/// The marks beside the text: a tilde for each row without a line.
pub open spec fn line_info<S>(buffer: BufferModel, context: Context) -> Seq<DrawCommand<S>> {
    Seq::new(
        (context.frame.size.height - 1) as nat,
        |i: int|
            DrawCommand::DrawChar {
                x: context.frame.origin.x,
                y: (context.frame.origin.y + i) as usize,
                style: DrawStyle::Fixed(context.theme.border),
                character: if buffer.first_line + i < line_count(buffer.text) - 1 {
                    ' '
                } else {
                    '~'
                },
            },
    )
}

/// What is drawn before the text.
pub open spec fn frame_begun<S>(buffer: BufferModel, context: Context) -> Seq<DrawCommand<S>> {
    seq![
        DrawCommand::ClearRegion { region: context.frame, fill: context.theme.syntax.text },
    ] + line_info::<S>(buffer, context)
}

/// Where the text is drawn: without the first column and the last row.
pub open spec fn text_context(context: Context) -> Context {
    Context { frame: context.frame.without(0, 0, 1, 1), ..context }
}

/// What draws a cluster.
fn draw_cluster<S: Copy>(
    cluster: Cluster,
    x: usize,
    y: usize,
    char_index: usize,
    style: DrawStyle<S>,
    commands: &mut Vec<DrawCommand<S>>,
)
    requires
        x + cluster.width <= usize::MAX,
        char_index + cluster.length <= usize::MAX,
    ensures
        final(commands)@ == old(commands)@ + cluster_commands(
            cluster,
            x as int,
            y,
            char_index as int,
            style,
        ),
{
    let ghost all = cluster_commands(cluster, x as int, y, char_index as int, style);
    let ghost before = commands@;
    let width = cluster.width;
    if cluster.is_tab {
        let mut offset: usize = 0;
        while offset < width
            invariant
                offset <= width,
                x + width <= usize::MAX,
                all == Seq::new(
                    width as nat,
                    |i: int|
                        DrawCommand::DrawChar { x: (x + i) as usize, y, style, character: ' ' },
                ),
                commands@ == before + all.take(offset as int),
            decreases width - offset,
        {
            commands.push(DrawCommand::DrawChar { x: x + offset, y, style, character: ' ' });
            offset = offset + 1;
            assert(all.take(offset as int) =~= all.take(offset - 1).push(all[offset - 1]));
        }
        assert(all.take(width as int) =~= all);
    } else if width == 0 {
        commands.push(DrawCommand::DrawChar { x, y, style, character: ' ' });
    } else {
        let end = char_index + cluster.length;
        commands.push(DrawCommand::DrawText { x, y, style, start: char_index, end });
    }
    assert(commands@ =~= before + all);
}

impl Buffer {
    /// Begins to draw a line in a frame.
    pub fn start_line<S: Copy>(&self, context: &Context, line_index: usize, frame: Rect) -> (line:
        LinePainter<S>)
        requires
            self@.valid(),
            line_index < line_count(self@.text),
            frame.bounded(),
        ensures
            line@ == line_begun::<S>(self@, *context, line_index as int, frame),
            line@.belongs_to(self@.text),
    {
        proof {
            lemma_byte_len_bounds(self@.text);
            lemma_first_line(self@.text);
            lemma_line_bounds(self@.text, line_index as int);
        }
        let mut commands: Vec<DrawCommand<S>> = Vec::new();
        if self.line_under_cursor() == line_index && context.focused {
            commands.push(
                DrawCommand::ClearRegion {
                    region: Rect {
                        origin: frame.origin,
                        size: Size { width: frame.size.width, height: 1 },
                    },
                    fill: context.theme.syntax.text_current_line,
                },
            );
        }
        let start = self.text.line_to_char(line_index);
        let end = self.text.line_to_char(line_index + 1);
        let text = text_range(&self.text, start, end);
        let clusters = measure_clusters(text.as_str());
        assert(clusters@.take(0) =~= Seq::<Cluster>::empty());
        LinePainter {
            line_index,
            frame,
            clusters,
            drawn: 0,
            char_index: start,
            visual_x: frame.origin.x,
            visual_cursor_x: 0,
            asked: false,
            finished: false,
            commands,
        }
    }

    /// Draws nothing more of a line.
    fn finish_line<S: Copy>(&self, context: &Context, line: &mut LinePainter<S>)
        requires
            self@.valid(),
            old(line)@.belongs_to(self@.text),
        ensures
            final(line)@ == line_finished(self@, *context, old(line)@),
            final(line)@.belongs_to(self@.text),
    {
        proof {
            lemma_byte_len_bounds(self@.text);
            lemma_first_line(self@.text);
        }
        if line.line_index == self.text.len_lines() - 1 && self.cursor.range.start
            == self.text.len_chars() {
            let style = if context.focused {
                context.theme.syntax.cursor_focused
            } else {
                context.theme.syntax.cursor_unfocused
            };
            line.commands.push(
                DrawCommand::DrawChar {
                    x: line.frame.origin.x,
                    y: line.frame.origin.y,
                    style: DrawStyle::Fixed(style),
                    character: ' ',
                },
            );
        }
        line.finished = true;
    }

    /// Draws a line on. The byte that is returned is one at which the syntax has to
    /// be asked for before the line can be drawn on; without one, the line is
    /// drawn. Nothing is asked where the text is not `traceable`.
    pub fn draw_line<S: Copy>(
        &self,
        context: &Context,
        line: &mut LinePainter<S>,
        trace: &Trace<S>,
        traceable: bool,
    ) -> (question: Option<usize>)
        requires
            self@.valid(),
            old(line)@.belongs_to(self@.text),
        ensures
            final(line)@ == line_drawn(self@, *context, traceable, old(line)@, *trace).0,
            optional_int(question) == line_drawn(
                self@,
                *context,
                traceable,
                old(line)@,
                *trace,
            ).1,
            final(line)@.belongs_to(self@.text),
            question is None ==> final(line)@.finished,
            question is Some ==> !final(line)@.finished,
    {
        let ghost text = self@.text;
        let ghost result = line_drawn(self@, *context, traceable, line@, *trace);
        if line.finished {
            return None;
        }
        proof {
            lemma_byte_len_bounds(text);
            lemma_first_line(text);
            lemma_line_bounds(text, line@.line);
        }
        let line_under_cursor = self.line_under_cursor() == line.line_index;
        let max_x = line.frame.max_x();
        while line.drawn < line.clusters.len()
            invariant
                self@.valid(),
                text == self@.text,
                text.len() <= isize::MAX,
                line@.belongs_to(text),
                !line@.finished,
                0 <= line_start(text, line@.line) <= line_end(text, line@.line) <= text.len(),
                line_under_cursor == (cursor_line(self@) == line@.line),
                max_x == line@.frame.origin.x + line@.frame.size.width,
                result == line_drawn(self@, *context, traceable, old(line)@, *trace),
                result == line_drawn(self@, *context, traceable, line@, *trace),
            decreases line.clusters.len() - line.drawn,
        {
            proof {
                lemma_total_length_step(line@.clusters, line@.drawn);
            }
            let cluster = line.clusters[line.drawn];
            let byte_index = self.text.char_to_byte(line.char_index);
            if traceable && !line.asked && !(trace.start <= byte_index && byte_index < trace.end) {
                line.asked = true;
                return Some(byte_index);
            }
            if context.focused && self.cursor.range.start <= line.char_index && line.char_index
                < self.cursor.range.end {
                line.visual_cursor_x = line.visual_x - line.frame.origin.x;
            }
            if cluster.width > max_x - line.visual_x {
                self.finish_line(context, line);
                return None;
            }
            let style = DrawStyle::Syntax {
                char_index: line.char_index,
                focused: context.focused,
                line_under_cursor,
                scope: trace.scope,
                is_error: trace.is_error,
            };
            draw_cluster(
                cluster,
                line.visual_x,
                line.frame.origin.y,
                line.char_index,
                style,
                &mut line.commands,
            );
            line.char_index = line.char_index + cluster.length;
            line.visual_x = line.visual_x + cluster.width;
            line.asked = false;
            line.drawn = line.drawn + 1;
        }
        self.finish_line(context, line);
        None
    }

    /// Scrolls the cursor into view and begins to draw the text.
    pub fn start_text<S: Copy>(&mut self, context: &Context) -> (text: TextPainter<S>)
        requires
            old(self)@.valid(),
            context.frame.bounded(),
            context.frame.size.height > 0 || cursor_line(old(self)@) < old(self)@.first_line,
        ensures
            final(self)@ == scrolled(old(self)@, context.frame.size.height as int),
            final(self)@.valid(),
            text@ == text_begun::<S>(final(self)@, *context),
            text@.belongs_to(final(self)@.text),
    {
        self.ensure_cursor_in_view(&context.frame);
        proof {
            lemma_byte_len_bounds(self@.text);
            lemma_first_line(self@.text);
            lemma_line_of_contains(self@.text, self@.cursor.start);
        }
        let left = self.text.len_lines() - self.first_line;
        let rows = if left <= context.frame.size.height {
            left
        } else {
            context.frame.size.height
        };
        let frame = inner_rect(context.frame, 0, 0, 0, 0);
        TextPainter {
            frame: context.frame,
            first_line: self.first_line,
            rows,
            row: 0,
            visual_cursor_x: 0,
            line: self.start_line(context, self.first_line, frame),
            commands: Vec::new(),
        }
    }

    /// Draws the text on, as [`Buffer::draw_line`] does a line.
    pub fn draw_text<S: Copy>(
        &self,
        context: &Context,
        text: &mut TextPainter<S>,
        trace: &Trace<S>,
        traceable: bool,
    ) -> (question: Option<usize>)
        requires
            self@.valid(),
            old(text)@.belongs_to(self@.text),
        ensures
            final(text)@ == text_drawn(self@, *context, traceable, old(text)@, *trace).0,
            optional_int(question) == text_drawn(
                self@,
                *context,
                traceable,
                old(text)@,
                *trace,
            ).1,
            final(text)@.belongs_to(self@.text),
            question is None ==> final(text)@.row == final(text)@.rows,
    {
        let ghost result = text_drawn(self@, *context, traceable, text@, *trace);
        proof {
            lemma_byte_len_bounds(self@.text);
            lemma_first_line(self@.text);
        }
        while text.row < text.rows
            invariant
                self@.valid(),
                line_count(self@.text) <= usize::MAX,
                text@.belongs_to(self@.text),
                result == text_drawn(self@, *context, traceable, old(text)@, *trace),
                result == text_drawn(self@, *context, traceable, text@, *trace),
            decreases text.rows - text.row,
        {
            let question = self.draw_line(context, &mut text.line, trace, traceable);
            if question.is_some() {
                return question;
            }
            if text.visual_cursor_x < text.line.visual_cursor_x {
                text.visual_cursor_x = text.line.visual_cursor_x;
            }
            text.commands.append(&mut text.line.commands);
            text.row = text.row + 1;
            if text.row < text.rows {
                let frame = inner_rect(text.frame, text.row, 0, 0, 0);
                text.line = self.start_line(context, text.first_line + text.row, frame);
            }
        }
        None
    }

    /// Draws the marks beside the text.
    pub fn draw_line_info<S: Copy>(&self, context: &Context) -> (commands: Vec<DrawCommand<S>>)
        requires
            self@.valid(),
            context.frame.bounded(),
            context.frame.size.height > 0,
        ensures
            commands@ == line_info::<S>(self@, *context),
    {
        proof {
            lemma_byte_len_bounds(self@.text);
            lemma_first_line(self@.text);
        }
        let ghost all = line_info::<S>(self@, *context);
        let last = self.text.len_lines() - 1;
        let mut commands: Vec<DrawCommand<S>> = Vec::new();
        let mut screen_index: usize = 0;
        while screen_index < context.frame.size.height - 1
            invariant
                context.frame.bounded(),
                screen_index <= context.frame.size.height - 1,
                last == line_count(self@.text) - 1,
                all == line_info::<S>(self@, *context),
                commands@ == all.take(screen_index as int),
            decreases context.frame.size.height - 1 - screen_index,
        {
            let in_text = self.first_line < last && screen_index < last - self.first_line;
            commands.push(
                DrawCommand::DrawChar {
                    x: context.frame.origin.x,
                    y: context.frame.origin.y + screen_index,
                    style: DrawStyle::Fixed(context.theme.border),
                    character: if in_text {
                        ' '
                    } else {
                        '~'
                    },
                },
            );
            screen_index = screen_index + 1;
            assert(all.take(screen_index as int) =~= all.take(screen_index - 1).push(
                all[screen_index - 1],
            ));
        }
        assert(all.take(screen_index as int) =~= all);
        commands
    }

    /// Begins to draw the buffer: empties its frame, draws the marks beside the
    /// text, and begins to draw the text. The text leaves out the column of the
    /// marks and the last row, which is that of the status bar.
    pub fn draw<S: Copy>(&mut self, context: &Context) -> (drawing: (
        Vec<DrawCommand<S>>,
        TextPainter<S>,
    ))
        requires
            old(self)@.valid(),
            context.frame.bounded(),
            context.frame.size.width > 0,
            context.frame.size.height > 0,
            context.frame.size.height > 1 || cursor_line(old(self)@) < old(self)@.first_line,
        ensures
            final(self)@ == scrolled(old(self)@, context.frame.size.height - 1),
            final(self)@.valid(),
            drawing.0@ == frame_begun::<S>(old(self)@, *context),
            drawing.1@ == text_begun::<S>(final(self)@, text_context(*context)),
            drawing.1@.belongs_to(final(self)@.text),
    {
        let mut commands: Vec<DrawCommand<S>> = Vec::new();
        commands.push(
            DrawCommand::ClearRegion { region: context.frame, fill: context.theme.syntax.text },
        );
        let mut marks = self.draw_line_info(context);
        commands.append(&mut marks);
        let inner = context.set_frame(inner_rect(context.frame, 0, 0, 1, 1));
        let text = self.start_text(&inner);
        (commands, text)
    }

    /// The text of a range of bytes, for a syntax tree to decide its scope by.
    pub fn text_of_bytes(&self, start: usize, end: usize) -> (text: String)
        requires
            self@.valid(),
            start <= end <= byte_len(self@.text),
        ensures
            text@ == self@.text.subrange(
                char_at_byte(self@.text, start as int),
                char_at_byte(self@.text, end as int),
            ),
    {
        proof {
            lemma_char_at_byte_order(self@.text, start as int, end as int);
            lemma_char_at_byte_bounds(self@.text, start as int);
            lemma_char_at_byte_bounds(self@.text, end as int);
        }
        text_range(&self.text, self.text.byte_to_char(start), self.text.byte_to_char(end))
    }
}

} // verus!
