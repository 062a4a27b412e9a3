//! Which lines of a text are drawn, and where.

use vstd::prelude::*;

use crate::buffer::BufferModel;
use crate::draw::{
    cluster_commands, frame_begun, line_begun, line_drawn, line_info, row_drawn, text_begun,
    text_context, text_drawn, Context, DrawCommand, DrawStyle, LineModel, TextModel, Trace,
};
use crate::draw_laws::{
    clusters_drawn, cursor_column, end_mark, fits, is_placed, law_begun_line_is_placed,
    law_line_is_drawn_in_place, law_only_traceable_texts_ask, lemma_clusters_drawn_alike, looked_at,
};
use crate::geometry::{Position, Rect, Size};
use crate::grapheme::{measured, Cluster};
use crate::lines::{line_count, line_of, line_start};
use crate::scroll::scrolled;

verus! {

/// A cluster is drawn where it is to be: its characters at its column; a tab as spaces,
/// one in each of its columns; and what takes no column as one space.
pub proof fn law_cluster_is_drawn<S>(
    cluster: Cluster,
    x: usize,
    y: usize,
    char_index: usize,
    style: DrawStyle<S>,
)
    requires
        x + cluster.width <= usize::MAX,
        char_index + cluster.length <= usize::MAX,
    ensures
        ({
            let commands = cluster_commands(cluster, x as int, y, char_index as int, style);
            &&& cluster.is_tab ==> {
                &&& commands.len() == cluster.width
                &&& forall|i: int|
                    0 <= i < cluster.width ==> (#[trigger] commands[i] matches
                        DrawCommand::DrawChar { x: column, y: row, style: with, character }
                        && column == x + i && row == y && with == style && character == ' ')
            }
            &&& !cluster.is_tab && cluster.width == 0 ==> commands == seq![
                DrawCommand::DrawChar { x, y, style, character: ' ' },
            ]
            &&& !cluster.is_tab && cluster.width > 0 ==> commands.len() == 1 && (commands[0] matches
                DrawCommand::DrawText { x: column, y: row, style: with, start, end }
                && column == x && row == y && with == style && start == char_index && end
                == char_index + cluster.length)
        }),
{
}

/// The area of a frame from one of its rows on.
pub open spec fn row_frame(frame: Rect, row: int) -> Rect {
    Rect {
        origin: Position { x: frame.origin.x, y: (frame.origin.y + row) as usize },
        size: Size { width: frame.size.width, height: (frame.size.height - row) as usize },
    }
}

/// The clusters of a line of a text, with its line break.
pub open spec fn line_clusters(text: Seq<char>, line: int) -> Seq<Cluster> {
    measured(text.subrange(line_start(text, line), line_start(text, line + 1)))
}

/// A line in an area, of which nothing is drawn.
pub open spec fn blank_line<S>(text: Seq<char>, line: int, frame: Rect) -> LineModel<S> {
    LineModel {
        line,
        frame,
        clusters: line_clusters(text, line),
        drawn: 0,
        char_index: 0,
        visual_x: 0,
        visual_cursor_x: 0,
        asked: false,
        finished: false,
        commands: Seq::empty(),
    }
}

/// What is drawn of a line before its clusters: its row is emptied if the cursor of a
/// focused buffer is on it.
pub open spec fn begin_mark<S>(
    buffer: BufferModel,
    context: Context,
    line: int,
    frame: Rect,
) -> Seq<DrawCommand<S>> {
    if line_of(buffer.text, buffer.cursor.start) == line && context.focused {
        seq![
            DrawCommand::ClearRegion {
                region: Rect {
                    origin: frame.origin,
                    size: Size { width: frame.size.width, height: 1 },
                },
                fill: context.theme.syntax.text_current_line,
            },
        ]
    } else {
        Seq::empty()
    }
}

/// How many of the first `count` clusters fit in a frame.
pub open spec fn fitting(clusters: Seq<Cluster>, frame: Rect, count: int) -> int
    decreases count,
{
    if count <= 0 || fits(clusters, frame, count) {
        count
    } else {
        fitting(clusters, frame, count - 1)
    }
}

/// What is drawn of a line from its cluster `from` on.
pub open spec fn rest_of_line<S>(
    buffer: BufferModel,
    context: Context,
    line: int,
    frame: Rect,
    trace: Trace<S>,
    from: int,
) -> Seq<DrawCommand<S>> {
    let clusters = line_clusters(buffer.text, line);
    let blank = blank_line::<S>(buffer.text, line, frame);
    let count = fitting(clusters, frame, clusters.len() as int);
    clusters_drawn(buffer, context, blank, line_start(buffer.text, line), trace, from, count)
        + end_mark(buffer, context, blank)
}

/// What is drawn of the rows from one up to another: in each row the line that is as far
/// behind the first one in view as the row is below the first.
pub open spec fn rows_shown<S>(
    buffer: BufferModel,
    context: Context,
    frame: Rect,
    first_line: int,
    trace: Trace<S>,
    from: int,
    to: int,
) -> Seq<DrawCommand<S>>
    decreases to - from,
{
    if from >= to {
        Seq::empty()
    } else {
        let area = row_frame(frame, from);
        begin_mark(buffer, context, first_line + from, area) + rest_of_line(
            buffer,
            context,
            first_line + from,
            area,
            trace,
            0,
        ) + rows_shown(buffer, context, frame, first_line, trace, from + 1, to)
    }
}

/// The column of the cursor on a line, in an area.
pub open spec fn column_on_line(
    buffer: BufferModel,
    context: Context,
    line: int,
    frame: Rect,
) -> int {
    let clusters = line_clusters(buffer.text, line);
    let count = fitting(clusters, frame, clusters.len() as int);
    let looked_at = if count < clusters.len() {
        count + 1
    } else {
        count
    };
    cursor_column(buffer, context, clusters, line_start(buffer.text, line), looked_at)
}

/// The largest of a column and those of the cursor in the rows from one up to another.
pub open spec fn largest_column(
    buffer: BufferModel,
    context: Context,
    frame: Rect,
    first_line: int,
    column: int,
    from: int,
    to: int,
) -> int
    decreases to - from,
{
    if from >= to {
        column
    } else {
        let here = column_on_line(buffer, context, first_line + from, row_frame(frame, from));
        largest_column(
            buffer,
            context,
            frame,
            first_line,
            if column >= here {
                column
            } else {
                here
            },
            from + 1,
            to,
        )
    }
}

/// All that was drawn of a text so far.
pub open spec fn all_drawn<S>(text: TextModel<S>) -> Seq<DrawCommand<S>> {
    if text.row < text.rows {
        text.commands + text.line.commands
    } else {
        text.commands
    }
}

/// Whether a text is drawn as it should be as far as it says: the line in a row is as far
/// behind the first one in view as the row is below the first, and it is placed.
pub open spec fn is_in_place<S>(
    buffer: BufferModel,
    context: Context,
    text: TextModel<S>,
) -> bool {
    &&& text.frame.bounded()
    &&& 0 <= text.first_line
    &&& 0 <= text.row
    &&& text.rows <= text.frame.size.height
    &&& text.first_line + text.rows <= line_count(buffer.text)
    &&& text.row < text.rows ==> {
        let line = text.first_line + text.row;
        &&& text.line.line == line
        &&& text.line.frame == row_frame(text.frame, text.row)
        &&& text.line.clusters == line_clusters(buffer.text, line)
        &&& is_placed(buffer, context, text.line, line_start(buffer.text, line))
        &&& !text.line.finished
    }
}

proof fn lemma_line_begins<S>(buffer: BufferModel, context: Context, line: int, frame: Rect)
    ensures
        ({
            let begun = line_begun::<S>(buffer, context, line, frame);
            &&& begun.line == line
            &&& begun.frame == frame
            &&& begun.clusters == line_clusters(buffer.text, line)
            &&& begun.drawn == 0
            &&& begun.commands == begin_mark::<S>(buffer, context, line, frame)
            &&& !begun.finished
            &&& is_placed(buffer, context, begun, line_start(buffer.text, line))
        }),
{
    law_begun_line_is_placed::<S>(buffer, context, line, frame);
}

/// A text begins with the first line in view, in the first row. There are as many rows as
/// the frame has, or as there are lines from there on if these are fewer.
pub proof fn law_text_begins_in_place<S>(buffer: BufferModel, context: Context)
    requires
        context.frame.bounded(),
        0 <= buffer.first_line < line_count(buffer.text),
    ensures
        ({
            let text = text_begun::<S>(buffer, context);
            let left = line_count(buffer.text) - buffer.first_line;
            &&& is_in_place(buffer, context, text)
            &&& text.frame == context.frame
            &&& text.first_line == buffer.first_line
            &&& text.row == 0
            &&& text.rows == if left <= context.frame.size.height {
                left
            } else {
                context.frame.size.height as int
            }
            &&& text.line.drawn == 0
            &&& text.visual_cursor_x == 0
            &&& text.rows > 0 ==> all_drawn(text) == begin_mark::<S>(
                buffer,
                context,
                buffer.first_line,
                row_frame(context.frame, 0),
            )
        }),
{
    lemma_line_begins::<S>(
        buffer,
        context,
        buffer.first_line,
        context.frame.without(0, 0, 0, 0),
    );
}

proof fn lemma_fitting(clusters: Seq<Cluster>, frame: Rect, count: int, most: int)
    requires
        0 <= most <= count,
        forall|n: int| 0 <= n <= count ==> (#[trigger] fits(clusters, frame, n) <==> n <= most),
    ensures
        fitting(clusters, frame, count) == most,
    decreases count,
{
    assert(fits(clusters, frame, count) <==> count <= most);
    if count > most {
        lemma_fitting(clusters, frame, count - 1, most);
    }
}

/// One row, drawn on.
proof fn lemma_row<S>(
    buffer: BufferModel,
    context: Context,
    traceable: bool,
    text: TextModel<S>,
    trace: Trace<S>,
)
    requires
        is_in_place(buffer, context, text),
        text.row < text.rows,
    ensures
        ({
            let (line, question) = line_drawn(buffer, context, traceable, text.line, trace);
            let index = text.first_line + text.row;
            let area = row_frame(text.frame, text.row);
            match question {
                Some(byte) => {
                    &&& is_in_place(buffer, context, TextModel { line, ..text })
                    &&& line.drawn >= text.line.drawn
                    &&& line.commands == text.line.commands + clusters_drawn(
                        buffer,
                        context,
                        blank_line::<S>(buffer.text, index, area),
                        line_start(buffer.text, index),
                        trace,
                        text.line.drawn,
                        line.drawn,
                    )
                },
                None => {
                    &&& line.visual_cursor_x == column_on_line(buffer, context, index, area)
                    &&& line.commands == text.line.commands + rest_of_line(
                        buffer,
                        context,
                        index,
                        area,
                        trace,
                        text.line.drawn,
                    )
                },
            }
        }),
{
    let (line, question) = line_drawn(buffer, context, traceable, text.line, trace);
    let index = text.first_line + text.row;
    let area = row_frame(text.frame, text.row);
    let first = line_start(buffer.text, index);
    let clusters = line_clusters(buffer.text, index);
    let blank = blank_line::<S>(buffer.text, index, area);
    law_line_is_drawn_in_place(buffer, context, traceable, text.line, trace, first);
    lemma_clusters_drawn_alike(
        buffer,
        context,
        text.line,
        blank,
        first,
        trace,
        text.line.drawn,
        line.drawn,
    );
    if question is None {
        lemma_fitting(clusters, area, clusters.len() as int, line.drawn);
        assert(looked_at(line) == if line.drawn < clusters.len() {
            line.drawn + 1
        } else {
            line.drawn
        });
        assert(end_mark(buffer, context, text.line) == end_mark(buffer, context, blank));
        let drawn = clusters_drawn(
            buffer,
            context,
            blank,
            first,
            trace,
            text.line.drawn,
            line.drawn,
        );
        assert(text.line.commands + drawn + end_mark(buffer, context, blank)
            =~= text.line.commands + (drawn + end_mark(buffer, context, blank)));
    }
}

/// The next row, begun.
proof fn lemma_next_row<S>(
    buffer: BufferModel,
    context: Context,
    text: TextModel<S>,
    line: LineModel<S>,
)
    requires
        is_in_place(buffer, context, text),
        text.row < text.rows,
    ensures
        ({
            let next = row_drawn(buffer, context, text, line);
            &&& is_in_place(buffer, context, next)
            &&& next.frame == text.frame
            &&& next.first_line == text.first_line
            &&& next.rows == text.rows
            &&& next.row == text.row + 1
            &&& next.visual_cursor_x == if text.visual_cursor_x >= line.visual_cursor_x {
                text.visual_cursor_x
            } else {
                line.visual_cursor_x
            }
            &&& next.row < next.rows ==> next.line.drawn == 0
            &&& all_drawn(next) == text.commands + line.commands + if next.row < next.rows {
                begin_mark::<S>(
                    buffer,
                    context,
                    next.first_line + next.row,
                    row_frame(next.frame, next.row),
                )
            } else {
                Seq::empty()
            }
        }),
{
    let next = row_drawn(buffer, context, text, line);
    if next.row < next.rows {
        lemma_line_begins::<S>(
            buffer,
            context,
            text.first_line + next.row,
            text.frame.without(next.row, 0, 0, 0),
        );
        assert(text.frame.without(next.row, 0, 0, 0) == row_frame(text.frame, next.row));
    } else {
        assert(all_drawn(next) =~= text.commands + line.commands + Seq::<
            DrawCommand<S>,
        >::empty());
    }
}

/// Drawing a text on draws the line that it is at, and then in each row below the line
/// that is as far behind the first one in view as the row is below the first: each with
/// its own characters, and none but those. It ends with the last row in view, or where
/// the syntax has to be asked for, on the line of the row that it has come to. The cursor
/// is told to be in the largest column that a line has it in.
pub proof fn law_rows_show_their_lines<S>(
    buffer: BufferModel,
    context: Context,
    traceable: bool,
    text: TextModel<S>,
    trace: Trace<S>,
)
    requires
        is_in_place(buffer, context, text),
        text.row < text.rows,
    ensures
        ({
            let (after, question) = text_drawn(buffer, context, traceable, text, trace);
            let line = text.first_line + text.row;
            let area = row_frame(text.frame, text.row);
            let rest = rest_of_line(buffer, context, line, area, trace, text.line.drawn);
            let last = after.first_line + after.row;
            let partly = clusters_drawn(
                buffer,
                context,
                blank_line::<S>(buffer.text, last, row_frame(text.frame, after.row)),
                line_start(buffer.text, last),
                trace,
                if after.row == text.row {
                    text.line.drawn
                } else {
                    0
                },
                after.line.drawn,
            );
            let between = rows_shown(
                buffer,
                context,
                text.frame,
                text.first_line,
                trace,
                text.row + 1,
                after.row,
            );
            &&& is_in_place(buffer, context, after)
            &&& after.frame == text.frame
            &&& after.first_line == text.first_line
            &&& after.rows == text.rows
            &&& text.row <= after.row <= text.rows
            &&& after.visual_cursor_x == largest_column(
                buffer,
                context,
                text.frame,
                text.first_line,
                text.visual_cursor_x,
                text.row,
                after.row,
            )
            &&& question is None ==> {
                &&& after.row == text.rows
                &&& all_drawn(after) == all_drawn(text) + rest + between
            }
            &&& question is Some ==> {
                &&& after.row < text.rows
                &&& after.row == text.row ==> all_drawn(after) == all_drawn(text) + partly
                &&& after.row > text.row ==> all_drawn(after) == all_drawn(text) + rest + between
                    + begin_mark::<S>(buffer, context, last, row_frame(text.frame, after.row))
                    + partly
            }
        }),
    decreases text.rows - text.row,
{
    let (after, question) = text_drawn(buffer, context, traceable, text, trace);
    let (line, asked) = line_drawn(buffer, context, traceable, text.line, trace);
    let index = text.first_line + text.row;
    let area = row_frame(text.frame, text.row);
    let rest = rest_of_line(buffer, context, index, area, trace, text.line.drawn);
    lemma_row(buffer, context, traceable, text, trace);
    if asked is Some {
        let partly = clusters_drawn(
            buffer,
            context,
            blank_line::<S>(buffer.text, index, area),
            line_start(buffer.text, index),
            trace,
            text.line.drawn,
            line.drawn,
        );
        assert(all_drawn(after) =~= all_drawn(text) + partly);
    } else {
        let next = row_drawn(buffer, context, text, line);
        lemma_next_row(buffer, context, text, line);
        assert((after, question) == text_drawn(buffer, context, traceable, next, trace));
        assert(text.commands + line.commands =~= all_drawn(text) + rest);
        assert(after.row >= next.row ==> largest_column(
            buffer,
            context,
            text.frame,
            text.first_line,
            text.visual_cursor_x,
            text.row,
            after.row,
        ) == largest_column(
            buffer,
            context,
            next.frame,
            next.first_line,
            next.visual_cursor_x,
            next.row,
            after.row,
        ));
        if next.row < next.rows {
            law_rows_show_their_lines(buffer, context, traceable, next, trace);
            lemma_join_rows(buffer, context, text, next, after, question is Some, trace);
        } else {
            assert(text_drawn(buffer, context, traceable, next, trace) == (
                next,
                None::<int>,
            ));
            assert(all_drawn(after) =~= all_drawn(text) + rest + Seq::<DrawCommand<S>>::empty());
        }
    }
}

/// Rows that are drawn one behind the other are drawn together.
proof fn lemma_join_rows<S>(
    buffer: BufferModel,
    context: Context,
    text: TextModel<S>,
    next: TextModel<S>,
    after: TextModel<S>,
    asked: bool,
    trace: Trace<S>,
)
    requires
        next.row == text.row + 1 < text.rows,
        next.frame == text.frame,
        next.first_line == text.first_line,
        next.rows == text.rows,
        next.line.drawn == 0,
        next.row <= after.row <= text.rows,
        after.first_line == text.first_line,
        ({
            let area = row_frame(text.frame, text.row);
            let line = text.first_line + text.row;
            let rest = rest_of_line(buffer, context, line, area, trace, text.line.drawn);
            all_drawn(next) == all_drawn(text) + rest + begin_mark::<S>(
                buffer,
                context,
                line + 1,
                row_frame(text.frame, next.row),
            )
        }),
        ({
            let area = row_frame(text.frame, next.row);
            let line = text.first_line + next.row;
            let rest = rest_of_line(buffer, context, line, area, trace, 0);
            let last = after.first_line + after.row;
            let partly = clusters_drawn(
                buffer,
                context,
                blank_line::<S>(buffer.text, last, row_frame(text.frame, after.row)),
                line_start(buffer.text, last),
                trace,
                0,
                after.line.drawn,
            );
            let between = rows_shown(
                buffer,
                context,
                text.frame,
                text.first_line,
                trace,
                next.row + 1,
                after.row,
            );
            &&& !asked ==> after.row == text.rows && all_drawn(after) == all_drawn(next) + rest
                + between
            &&& asked && after.row == next.row ==> all_drawn(after) == all_drawn(next) + partly
            &&& asked && after.row > next.row ==> all_drawn(after) == all_drawn(next) + rest
                + between + begin_mark::<S>(
                buffer,
                context,
                last,
                row_frame(text.frame, after.row),
            ) + partly
        }),
    ensures
        ({
            let area = row_frame(text.frame, text.row);
            let line = text.first_line + text.row;
            let rest = rest_of_line(buffer, context, line, area, trace, text.line.drawn);
            let last = after.first_line + after.row;
            let partly = clusters_drawn(
                buffer,
                context,
                blank_line::<S>(buffer.text, last, row_frame(text.frame, after.row)),
                line_start(buffer.text, last),
                trace,
                0,
                after.line.drawn,
            );
            let between = rows_shown(
                buffer,
                context,
                text.frame,
                text.first_line,
                trace,
                next.row,
                after.row,
            );
            &&& !asked ==> all_drawn(after) == all_drawn(text) + rest + between
            &&& asked ==> all_drawn(after) == all_drawn(text) + rest + between + begin_mark::<S>(
                buffer,
                context,
                last,
                row_frame(text.frame, after.row),
            ) + partly
        }),
{
    let area = row_frame(text.frame, text.row);
    let rest = rest_of_line(
        buffer,
        context,
        text.first_line + text.row,
        area,
        trace,
        text.line.drawn,
    );
    let next_area = row_frame(text.frame, next.row);
    let next_line = text.first_line + next.row;
    let mark = begin_mark::<S>(buffer, context, next_line, next_area);
    let next_rest = rest_of_line(buffer, context, next_line, next_area, trace, 0);
    let others = rows_shown(
        buffer,
        context,
        text.frame,
        text.first_line,
        trace,
        next.row + 1,
        after.row,
    );
    let drawn = all_drawn(text);
    if after.row > next.row {
        assert(drawn + rest + mark + next_rest + others =~= drawn + rest + (mark + next_rest
            + others));
    } else {
        assert(drawn + rest + mark =~= drawn + rest + Seq::<DrawCommand<S>>::empty() + mark);
    }
}

/// A text that is not traced is drawn whole: in each row in view, from the first one on,
/// the line that is as far behind the first line in view.
pub proof fn law_whole_text_is_shown<S>(buffer: BufferModel, context: Context, trace: Trace<S>)
    requires
        context.frame.bounded(),
        0 <= buffer.first_line < line_count(buffer.text),
        context.frame.size.height > 0,
    ensures
        ({
            let begun = text_begun::<S>(buffer, context);
            let (after, question) = text_drawn(buffer, context, false, begun, trace);
            &&& question is None
            &&& after.commands == rows_shown(
                buffer,
                context,
                context.frame,
                buffer.first_line,
                trace,
                0,
                begun.rows,
            )
            &&& after.visual_cursor_x == largest_column(
                buffer,
                context,
                context.frame,
                buffer.first_line,
                0,
                0,
                begun.rows,
            )
        }),
{
    let begun = text_begun::<S>(buffer, context);
    let (after, question) = text_drawn(buffer, context, false, begun, trace);
    law_text_begins_in_place::<S>(buffer, context);
    law_rows_show_their_lines(buffer, context, false, begun, trace);
    law_only_traceable_texts_ask(buffer, context, begun, trace);
    let area = row_frame(context.frame, 0);
    let mark = begin_mark::<S>(buffer, context, buffer.first_line, area);
    let rest = rest_of_line(buffer, context, buffer.first_line, area, trace, 0);
    let others = rows_shown(
        buffer,
        context,
        context.frame,
        buffer.first_line,
        trace,
        1,
        begun.rows,
    );
    assert(rows_shown(buffer, context, context.frame, buffer.first_line, trace, 0, begun.rows)
        == mark + rest + others);
}

/// Before the text, the whole frame is emptied, and each row but the last gets a mark at
/// its left edge: a tilde where the text has no more lines but an empty last one.
pub proof fn law_frame_is_emptied_and_marked<S>(buffer: BufferModel, context: Context)
    requires
        context.frame.bounded(),
        context.frame.size.height > 0,
    ensures
        ({
            let commands = frame_begun::<S>(buffer, context);
            &&& commands.len() == context.frame.size.height
            &&& commands[0] == (DrawCommand::<S>::ClearRegion {
                region: context.frame,
                fill: context.theme.syntax.text,
            })
            &&& commands.skip(1) == line_info::<S>(buffer, context)
        }),
        line_info::<S>(buffer, context).len() == context.frame.size.height - 1,
        forall|i: int|
            0 <= i < context.frame.size.height - 1 ==> (#[trigger] line_info::<S>(
                buffer,
                context,
            )[i] matches DrawCommand::DrawChar { x, y, style, character } && x
                == context.frame.origin.x && y == context.frame.origin.y + i && style
                == DrawStyle::<S>::Fixed(context.theme.border) && character == if buffer.first_line
                + i + 1 < line_count(buffer.text) {
                ' '
            } else {
                '~'
            }),
{
    assert(frame_begun::<S>(buffer, context).skip(1) =~= line_info::<S>(buffer, context));
}

/// The text is drawn right of the marks and above the status bar.
pub proof fn law_text_leaves_room_for_marks_and_status(context: Context)
    requires
        context.frame.bounded(),
        context.frame.size.width > 0,
        context.frame.size.height > 0,
    ensures
        ({
            let frame = text_context(context).frame;
            &&& frame.origin.x == context.frame.origin.x + 1
            &&& frame.origin.y == context.frame.origin.y
            &&& frame.size.width == context.frame.size.width - 1
            &&& frame.size.height == context.frame.size.height - 1
        }),
        text_context(context) == (Context { frame: text_context(context).frame, ..context }),
{
}

/// The view scrolls no further than it has to: up to the line of the cursor, or down
/// until that is the last one in view. Nothing else changes.
pub proof fn law_view_scrolls_no_further_than_it_has_to(buffer: BufferModel, height: int)
    requires
        height > 0,
    ensures
        ({
            let line = line_of(buffer.text, buffer.cursor.start);
            let after = scrolled(buffer, height);
            &&& line < buffer.first_line ==> after.first_line == line
            &&& line >= buffer.first_line + height ==> after.first_line + height - 1 == line
            &&& buffer.first_line <= line < buffer.first_line + height ==> after == buffer
            &&& after == (BufferModel { first_line: after.first_line, ..buffer })
        }),
{
}

} // verus!
