//! What holds of drawing a text.

use vstd::prelude::*;

use crate::buffer::BufferModel;
use crate::draw::{
    cluster_commands, cluster_drawn, cluster_style, cursor_found, line_begun, line_drawn, row_drawn,
    text_begun, text_drawn, Context, DrawCommand, DrawStyle, LineModel, TextModel, Trace,
};
use crate::geometry::Rect;
use crate::grapheme::{
    lemma_total_length_step, lemma_total_width_order, lemma_total_width_step, total_length,
    total_width, Cluster,
};
use crate::lines::{line_count, line_start};
use crate::scroll::cursor_line;
use crate::utf8::byte_offset;

verus! {

/// Whether what a command draws starts in the first row of a frame, between its left
/// and its right edge.
pub open spec fn starts_within<S>(command: DrawCommand<S>, frame: Rect) -> bool {
    let right = frame.origin.x + frame.size.width;
    match command {
        DrawCommand::ClearRegion { region, .. } => region.origin == frame.origin
            && region.size.width == frame.size.width && region.size.height == 1,
        DrawCommand::DrawChar { x, y, .. } => frame.origin.x <= x <= right && y == frame.origin.y,
        DrawCommand::DrawText { x, y, .. } => frame.origin.x <= x <= right && y == frame.origin.y,
    }
}

/// Whether a line has kept to its frame so far.
pub open spec fn keeps_to_frame<S>(line: LineModel<S>) -> bool {
    &&& line.frame.bounded()
    &&& line.frame.origin.x <= line.visual_x <= line.frame.origin.x + line.frame.size.width
    &&& 0 <= line.visual_cursor_x <= line.frame.size.width
    &&& forall|i: int|
        0 <= i < line.commands.len() ==> starts_within(#[trigger] line.commands[i], line.frame)
}

/// A line that is begun keeps to its frame.
pub proof fn law_begun_line_keeps_to_frame<S>(
    buffer: BufferModel,
    context: Context,
    line: int,
    frame: Rect,
)
    requires
        frame.bounded(),
    ensures
        keeps_to_frame(line_begun::<S>(buffer, context, line, frame)),
{
}

/// However a line is drawn on, nothing of it starts outside its frame, and the
/// cursor is found inside.
pub proof fn law_drawn_line_keeps_to_frame<S>(
    buffer: BufferModel,
    context: Context,
    traceable: bool,
    line: LineModel<S>,
    trace: Trace<S>,
)
    requires
        keeps_to_frame(line),
    ensures
        keeps_to_frame(line_drawn(buffer, context, traceable, line, trace).0),
        line_drawn(buffer, context, traceable, line, trace).0.frame == line.frame,
    decreases line.clusters.len() - line.drawn,
{
    if !line.finished && 0 <= line.drawn < line.clusters.len() {
        let found = cursor_found(buffer, context, line);
        let cluster = line.clusters[line.drawn];
        if line.visual_x + cluster.width <= line.frame.origin.x + line.frame.size.width {
            let next = cluster_drawn(buffer, context, found, trace);
            let added = cluster_commands(
                cluster,
                found.visual_x,
                found.frame.origin.y,
                found.char_index,
                cluster_style(buffer, context, found, trace),
            );
            assert forall|i: int| 0 <= i < next.commands.len() implies starts_within(
                #[trigger] next.commands[i],
                next.frame,
            ) by {
                if i < found.commands.len() {
                    assert(next.commands[i] == line.commands[i]);
                } else {
                    assert(next.commands[i] == added[i - found.commands.len()]);
                }
            }
            law_drawn_line_keeps_to_frame(buffer, context, traceable, next, trace);
        }
    }
}

/// Whether what a command draws starts in a frame, or at its right edge.
pub open spec fn lies_within<S>(command: DrawCommand<S>, frame: Rect) -> bool {
    let right = frame.origin.x + frame.size.width;
    let bottom = frame.origin.y + frame.size.height;
    match command {
        DrawCommand::ClearRegion { region, .. } => {
            &&& region.origin.x == frame.origin.x
            &&& region.size.width == frame.size.width
            &&& frame.origin.y <= region.origin.y
            &&& region.origin.y + region.size.height <= bottom
        },
        DrawCommand::DrawChar { x, y, .. } => frame.origin.x <= x <= right && frame.origin.y <= y
            < bottom,
        DrawCommand::DrawText { x, y, .. } => frame.origin.x <= x <= right && frame.origin.y <= y
            < bottom,
    }
}

/// Whether a text has kept to its frame so far.
pub open spec fn text_keeps_to_frame<S>(text: TextModel<S>) -> bool {
    &&& text.frame.bounded()
    &&& 0 <= text.row
    &&& text.rows <= text.frame.size.height
    &&& 0 <= text.visual_cursor_x <= text.frame.size.width
    &&& text.row < text.rows ==> {
        &&& text.line.frame == text.frame.without(text.row, 0, 0, 0)
        &&& keeps_to_frame(text.line)
    }
    &&& forall|i: int|
        0 <= i < text.commands.len() ==> lies_within(#[trigger] text.commands[i], text.frame)
}

/// A text that is begun keeps to its frame.
pub proof fn law_begun_text_keeps_to_frame<S>(buffer: BufferModel, context: Context)
    requires
        context.frame.bounded(),
    ensures
        text_keeps_to_frame(text_begun::<S>(buffer, context)),
{
}

/// However a text is drawn on, nothing of it starts outside its frame, and the
/// cursor is found inside.
pub proof fn law_drawn_text_keeps_to_frame<S>(
    buffer: BufferModel,
    context: Context,
    traceable: bool,
    text: TextModel<S>,
    trace: Trace<S>,
)
    requires
        text_keeps_to_frame(text),
    ensures
        text_keeps_to_frame(text_drawn(buffer, context, traceable, text, trace).0),
    decreases text.rows - text.row,
{
    if text.row < text.rows {
        law_drawn_line_keeps_to_frame(buffer, context, traceable, text.line, trace);
        let (line, question) = line_drawn(buffer, context, traceable, text.line, trace);
        if question is None {
            let next = row_drawn(buffer, context, text, line);
            assert forall|i: int| 0 <= i < next.commands.len() implies lies_within(
                #[trigger] next.commands[i],
                next.frame,
            ) by {
                if i < text.commands.len() {
                    assert(next.commands[i] == text.commands[i]);
                } else {
                    let added = line.commands[i - text.commands.len()];
                    assert(next.commands[i] == added);
                    assert(starts_within(added, line.frame));
                }
            }
            law_drawn_text_keeps_to_frame(buffer, context, traceable, next, trace);
        }
    }
}

/// The syntax is asked for only where the text is traceable.
pub proof fn law_only_traceable_lines_ask<S>(
    buffer: BufferModel,
    context: Context,
    line: LineModel<S>,
    trace: Trace<S>,
)
    ensures
        line_drawn(buffer, context, false, line, trace).1 is None,
        line_drawn(buffer, context, false, line, trace).0.finished,
    decreases line.clusters.len() - line.drawn,
{
    if !line.finished && 0 <= line.drawn < line.clusters.len() {
        law_only_traceable_lines_ask(
            buffer,
            context,
            cluster_drawn(buffer, context, cursor_found(buffer, context, line), trace),
            trace,
        );
    }
}

/// A text that is not traceable is drawn at once.
pub proof fn law_only_traceable_texts_ask<S>(
    buffer: BufferModel,
    context: Context,
    text: TextModel<S>,
    trace: Trace<S>,
)
    ensures
        text_drawn(buffer, context, false, text, trace).1 is None,
        text_drawn(buffer, context, false, text, trace).0.row >= text.rows,
    decreases text.rows - text.row,
{
    if text.row < text.rows {
        law_only_traceable_lines_ask(buffer, context, text.line, trace);
        law_only_traceable_texts_ask(
            buffer,
            context,
            row_drawn(
                buffer,
                context,
                text,
                line_drawn(buffer, context, false, text.line, trace).0,
            ),
            trace,
        );
    }
}

/// The syntax is asked for once at a cluster: whatever the answer, the cluster is
/// drawn before it is asked for again.
pub proof fn law_lines_ask_once<S>(
    buffer: BufferModel,
    context: Context,
    traceable: bool,
    line: LineModel<S>,
    trace: Trace<S>,
)
    ensures
        ({
            let (after, question) = line_drawn(buffer, context, traceable, line, trace);
            question is Some ==> {
                &&& after.asked
                &&& !after.finished
                &&& line.drawn <= after.drawn < after.clusters.len()
                &&& line.asked ==> line.drawn < after.drawn
                &&& after.clusters == line.clusters
            }
        }),
    decreases line.clusters.len() - line.drawn,
{
    if !line.finished && 0 <= line.drawn < line.clusters.len() {
        law_lines_ask_once(
            buffer,
            context,
            traceable,
            cluster_drawn(buffer, context, cursor_found(buffer, context, line), trace),
            trace,
        );
    }
}

/// Drawing a text comes to an end: between two questions a cluster or a line is
/// drawn.
pub proof fn law_texts_ask_once<S>(
    buffer: BufferModel,
    context: Context,
    traceable: bool,
    text: TextModel<S>,
    trace: Trace<S>,
)
    ensures
        ({
            let (after, question) = text_drawn(buffer, context, traceable, text, trace);
            question is Some ==> {
                &&& after.line.asked
                &&& text.row <= after.row < after.rows
                &&& after.rows == text.rows
                &&& text.line.asked && after.row == text.row ==> text.line.drawn
                    < after.line.drawn < text.line.clusters.len()
            }
        }),
    decreases text.rows - text.row,
{
    if text.row < text.rows {
        law_lines_ask_once(buffer, context, traceable, text.line, trace);
        let (line, question) = line_drawn(buffer, context, traceable, text.line, trace);
        if question is None {
            law_texts_ask_once(
                buffer,
                context,
                traceable,
                row_drawn(buffer, context, text, line),
                trace,
            );
        }
    }
}

/// The column at which the cluster behind the first `count` ones starts.
pub open spec fn cluster_x(clusters: Seq<Cluster>, frame: Rect, count: int) -> int {
    frame.origin.x + total_width(clusters.take(count))
}

/// The character at which it starts, on a line that starts at `first`.
pub open spec fn cluster_start(clusters: Seq<Cluster>, first: int, count: int) -> int {
    first + total_length(clusters.take(count))
}

/// Whether the first `count` clusters fit in a frame.
pub open spec fn fits(clusters: Seq<Cluster>, frame: Rect, count: int) -> bool {
    cluster_x(clusters, frame, count) <= frame.origin.x + frame.size.width
}

/// Whether the cursor of a focused buffer is shown at a character.
pub open spec fn under_cursor(buffer: BufferModel, context: Context, index: int) -> bool {
    context.focused && buffer.cursor.start <= index < buffer.cursor.end
}

/// The column of the cursor, where so many clusters were looked at: the columns that
/// come before the last one of them under the cursor, or none if there is no such
/// cluster.
pub open spec fn cursor_column(
    buffer: BufferModel,
    context: Context,
    clusters: Seq<Cluster>,
    first: int,
    looked_at: int,
) -> int
    decreases looked_at,
{
    if looked_at <= 0 {
        0
    } else if under_cursor(buffer, context, cluster_start(clusters, first, looked_at - 1)) {
        total_width(clusters.take(looked_at - 1))
    } else {
        cursor_column(buffer, context, clusters, first, looked_at - 1)
    }
}

/// How many clusters of a line were looked at: those drawn, and the one that did not
/// fit.
pub open spec fn looked_at<S>(line: LineModel<S>) -> int {
    if line.finished && line.drawn < line.clusters.len() {
        line.drawn + 1
    } else {
        line.drawn
    }
}

/// Whether a line that starts at the character `first` is drawn as it should be as far
/// as it says: the next cluster is placed behind the others, these fit in the frame, and
/// the column of the cursor is known.
pub open spec fn is_placed<S>(
    buffer: BufferModel,
    context: Context,
    line: LineModel<S>,
    first: int,
) -> bool {
    &&& 0 <= line.drawn <= line.clusters.len()
    &&& line.visual_x == cluster_x(line.clusters, line.frame, line.drawn)
    &&& line.char_index == cluster_start(line.clusters, first, line.drawn)
    &&& fits(line.clusters, line.frame, line.drawn)
    &&& line.visual_cursor_x == cursor_column(
        buffer,
        context,
        line.clusters,
        first,
        looked_at(line),
    )
}

/// What draws the clusters from one up to another: each at the columns and characters
/// that the ones before it take.
pub open spec fn clusters_drawn<S>(
    buffer: BufferModel,
    context: Context,
    line: LineModel<S>,
    first: int,
    trace: Trace<S>,
    from: int,
    to: int,
) -> Seq<DrawCommand<S>>
    decreases to - from,
{
    if from >= to {
        Seq::empty()
    } else {
        let char_index = cluster_start(line.clusters, first, from);
        cluster_commands(
            line.clusters[from],
            cluster_x(line.clusters, line.frame, from),
            line.frame.origin.y,
            char_index,
            DrawStyle::Syntax {
                char_index: char_index as usize,
                focused: context.focused,
                line_under_cursor: cursor_line(buffer) == line.line,
                scope: trace.scope,
                is_error: trace.is_error,
            },
        ) + clusters_drawn(buffer, context, line, first, trace, from + 1, to)
    }
}

/// What is drawn when a line is at its end: the cursor, where it is behind the last
/// character of the text and this is the last line.
pub open spec fn end_mark<S>(
    buffer: BufferModel,
    context: Context,
    line: LineModel<S>,
) -> Seq<DrawCommand<S>> {
    if line.line == line_count(buffer.text) - 1 && buffer.cursor.start == buffer.text.len() {
        let style = if context.focused {
            context.theme.syntax.cursor_focused
        } else {
            context.theme.syntax.cursor_unfocused
        };
        seq![
            DrawCommand::DrawChar {
                x: line.frame.origin.x,
                y: line.frame.origin.y,
                style: DrawStyle::Fixed(style),
                character: ' ',
            },
        ]
    } else {
        Seq::empty()
    }
}

/// A line that is begun is placed.
pub proof fn law_begun_line_is_placed<S>(
    buffer: BufferModel,
    context: Context,
    line: int,
    frame: Rect,
)
    ensures
        is_placed(
            buffer,
            context,
            line_begun::<S>(buffer, context, line, frame),
            line_start(buffer.text, line),
        ),
{
    let clusters = line_begun::<S>(buffer, context, line, frame).clusters;
    assert(clusters.take(0) =~= Seq::<Cluster>::empty());
}

proof fn lemma_cluster_is_placed<S>(
    buffer: BufferModel,
    context: Context,
    line: LineModel<S>,
    trace: Trace<S>,
    first: int,
)
    requires
        is_placed(buffer, context, line, first),
        !line.finished,
        line.drawn < line.clusters.len(),
    ensures
        cursor_found(buffer, context, line).visual_cursor_x == cursor_column(
            buffer,
            context,
            line.clusters,
            first,
            line.drawn + 1,
        ),
        fits(line.clusters, line.frame, line.drawn + 1) ==> is_placed(
            buffer,
            context,
            cluster_drawn(buffer, context, cursor_found(buffer, context, line), trace),
            first,
        ),
{
    lemma_total_width_step(line.clusters, line.drawn);
    lemma_total_length_step(line.clusters, line.drawn);
}

/// Drawing a line on draws each cluster at the columns that the ones before it take, as
/// many of them as fit in the frame or as the trace covers, and finds the cursor in the
/// column that the clusters before it take.
pub proof fn law_line_is_drawn_in_place<S>(
    buffer: BufferModel,
    context: Context,
    traceable: bool,
    line: LineModel<S>,
    trace: Trace<S>,
    first: int,
)
    requires
        is_placed(buffer, context, line, first),
        !line.finished,
    ensures
        ({
            let (after, question) = line_drawn(buffer, context, traceable, line, trace);
            let commands = clusters_drawn(
                buffer,
                context,
                line,
                first,
                trace,
                line.drawn,
                after.drawn,
            );
            &&& is_placed(buffer, context, after, first)
            &&& after.clusters == line.clusters && after.frame == line.frame && after.line
                == line.line
            &&& line.drawn <= after.drawn
            &&& match question {
                None => {
                    &&& after.finished
                    &&& after.commands == line.commands + commands + end_mark(buffer, context, line)
                    &&& forall|count: int|
                        0 <= count <= line.clusters.len() ==> (#[trigger] fits(
                            line.clusters,
                            line.frame,
                            count,
                        ) <==> count <= after.drawn)
                },
                Some(byte) => {
                    &&& !after.finished
                    &&& after.commands == line.commands + commands
                    &&& traceable && after.drawn < line.clusters.len()
                    &&& byte == byte_offset(buffer.text, after.char_index)
                    &&& !(trace.start <= byte < trace.end)
                },
            }
        }),
    decreases line.clusters.len() - line.drawn,
{
    let (after, question) = line_drawn(buffer, context, traceable, line, trace);
    let clusters = line.clusters;
    if line.drawn >= clusters.len() {
        assert(after.commands =~= line.commands + Seq::<DrawCommand<S>>::empty() + end_mark(
            buffer,
            context,
            line,
        ));
        assert forall|count: int| 0 <= count <= clusters.len() implies #[trigger] fits(
            clusters,
            line.frame,
            count,
        ) by {
            lemma_total_width_order(clusters, count, line.drawn);
        }
    } else {
        let byte = byte_offset(buffer.text, line.char_index);
        let found = cursor_found(buffer, context, line);
        lemma_cluster_is_placed(buffer, context, line, trace, first);
        lemma_total_width_step(clusters, line.drawn);
        if traceable && !line.asked && !(trace.start <= byte < trace.end) {
            assert(after.commands =~= line.commands + Seq::<DrawCommand<S>>::empty());
        } else if !fits(clusters, line.frame, line.drawn + 1) {
            assert(after.commands =~= line.commands + Seq::<DrawCommand<S>>::empty() + end_mark(
                buffer,
                context,
                line,
            ));
            assert forall|count: int| 0 <= count <= clusters.len() implies (#[trigger] fits(
                clusters,
                line.frame,
                count,
            ) <==> count <= line.drawn) by {
                if count <= line.drawn {
                    lemma_total_width_order(clusters, count, line.drawn);
                } else {
                    lemma_total_width_order(clusters, line.drawn + 1, count);
                }
            }
        } else {
            let next = cluster_drawn(buffer, context, found, trace);
            law_line_is_drawn_in_place(buffer, context, traceable, next, trace, first);
            lemma_clusters_drawn_alike(
                buffer,
                context,
                next,
                line,
                first,
                trace,
                line.drawn + 1,
                after.drawn,
            );
            let one = cluster_commands(
                clusters[line.drawn],
                line.visual_x,
                line.frame.origin.y,
                line.char_index,
                cluster_style(buffer, context, found, trace),
            );
            let others = clusters_drawn(
                buffer,
                context,
                line,
                first,
                trace,
                line.drawn + 1,
                after.drawn,
            );
            assert(clusters_drawn(buffer, context, line, first, trace, line.drawn, after.drawn)
                == one + others);
            assert(next.commands + others =~= line.commands + (one + others));
        }
    }
}

/// No cluster of a traceable text is drawn, or left out at the edge, with a trace that
/// does not cover its first byte, but for one at which the syntax was asked for and this
/// is the answer.
pub proof fn law_only_traced_clusters_are_drawn<S>(
    buffer: BufferModel,
    context: Context,
    line: LineModel<S>,
    trace: Trace<S>,
    first: int,
    index: int,
)
    requires
        is_placed(buffer, context, line, first),
        !line.finished,
        line.drawn <= index < looked_at(line_drawn(buffer, context, true, line, trace).0),
        line.asked ==> index > line.drawn,
    ensures
        trace.start <= byte_offset(buffer.text, cluster_start(line.clusters, first, index))
            < trace.end,
    decreases line.clusters.len() - line.drawn,
{
    if line.drawn < line.clusters.len() {
        let byte = byte_offset(buffer.text, line.char_index);
        let found = cursor_found(buffer, context, line);
        lemma_cluster_is_placed(buffer, context, line, trace, first);
        lemma_total_width_step(line.clusters, line.drawn);
        if (line.asked || trace.start <= byte < trace.end) && fits(
            line.clusters,
            line.frame,
            line.drawn + 1,
        ) && index > line.drawn {
            law_only_traced_clusters_are_drawn(
                buffer,
                context,
                cluster_drawn(buffer, context, found, trace),
                trace,
                first,
                index,
            );
        }
    }
}

/// What draws clusters does not depend on how much of their line is drawn.
pub proof fn lemma_clusters_drawn_alike<S>(
    buffer: BufferModel,
    context: Context,
    a: LineModel<S>,
    b: LineModel<S>,
    first: int,
    trace: Trace<S>,
    from: int,
    to: int,
)
    requires
        a.clusters == b.clusters,
        a.frame == b.frame,
        a.line == b.line,
    ensures
        clusters_drawn(buffer, context, a, first, trace, from, to) == clusters_drawn(
            buffer,
            context,
            b,
            first,
            trace,
            from,
            to,
        ),
    decreases to - from,
{
    if from < to {
        lemma_clusters_drawn_alike(buffer, context, a, b, first, trace, from + 1, to);
    }
}

/// The cursor is found in the column that the clusters before it take, where it is on
/// one that was looked at and on none behind that.
pub proof fn law_cursor_is_behind_the_clusters_before_it<S>(
    buffer: BufferModel,
    context: Context,
    line: LineModel<S>,
    first: int,
    index: int,
)
    requires
        is_placed(buffer, context, line, first),
        0 <= index < looked_at(line),
        under_cursor(buffer, context, cluster_start(line.clusters, first, index)),
        forall|k: int|
            index < k < looked_at(line) ==> !under_cursor(
                buffer,
                context,
                #[trigger] cluster_start(line.clusters, first, k),
            ),
    ensures
        line.visual_cursor_x == total_width(line.clusters.take(index)),
{
    lemma_cursor_column(buffer, context, line.clusters, first, index + 1, looked_at(line));
}

/// Clusters that are not under the cursor do not decide its column.
proof fn lemma_cursor_column(
    buffer: BufferModel,
    context: Context,
    clusters: Seq<Cluster>,
    first: int,
    from: int,
    to: int,
)
    requires
        0 <= from <= to,
        forall|k: int|
            from <= k < to ==> !under_cursor(
                buffer,
                context,
                #[trigger] cluster_start(clusters, first, k),
            ),
    ensures
        cursor_column(buffer, context, clusters, first, to) == cursor_column(
            buffer,
            context,
            clusters,
            first,
            from,
        ),
    decreases to - from,
{
    if from < to {
        lemma_cursor_column(buffer, context, clusters, first, from, to - 1);
    }
}

/// A line on which no character is under the cursor, or any line without the focus,
/// finds it in no column: what it tells of it is zero.
pub proof fn law_cursor_elsewhere_has_no_column<S>(
    buffer: BufferModel,
    context: Context,
    line: LineModel<S>,
    first: int,
)
    requires
        is_placed(buffer, context, line, first),
        forall|i: int| 0 <= i < line.clusters.len() ==> (#[trigger] line.clusters[i]).length > 0,
        forall|index: int|
            first <= index < first + total_length(line.clusters) ==> !#[trigger] under_cursor(
                buffer,
                context,
                index,
            ),
    ensures
        line.visual_cursor_x == 0,
{
    assert forall|k: int| 0 <= k < looked_at(line) implies !under_cursor(
        buffer,
        context,
        #[trigger] cluster_start(line.clusters, first, k),
    ) by {
        lemma_total_length_step(line.clusters, k);
        assert(line.clusters[k].length > 0);
    }
    lemma_cursor_column(buffer, context, line.clusters, first, 0, looked_at(line));
}

} // verus!
