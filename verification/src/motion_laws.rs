//! What the motions of the cursor do.

use vstd::prelude::*;

use crate::cursor::{
    chars_within, down, down_n, end_of_buffer, end_of_line, kept_column, left, right, right_n,
    selected, start_of_buffer, start_of_line, to_line, up, up_n, within, CursorModel,
};
use crate::grapheme::{
    boundary_after_byte, boundary_before_byte, cluster_width, clusters, display_width,
    lemma_boundaries, measured, next_boundary, prev_boundary, total_length, total_width, Cluster,
};
use crate::laws::{law_down_moves_one_line, law_motions_stay_within, law_up_moves_one_line};
use crate::lines::{
    break_start, ends_line, is_break, lemma_break_start, lemma_line_bounds, lemma_line_of_contains,
    lemma_line_of_order, lemma_line_start, line_body, line_count, line_end, line_of, line_start,
};
use crate::utf8::{byte_offset, lemma_byte_len_split, lemma_char_at_byte_offset, storable};

verus! {

/// The boundaries counted in characters are those found in bytes. The ends of the text
/// are boundaries.
pub proof fn law_boundaries_are_those_in_bytes(text: Seq<char>, index: int, other: int)
    requires
        storable(text),
        0 <= index <= text.len(),
        0 <= other <= text.len(),
    ensures
        index < other && boundary_after_byte(text, byte_offset(text, index)) == Some(
            byte_offset(text, other) as usize,
        ) ==> next_boundary(text, index) == other,
        other < index && boundary_before_byte(text, byte_offset(text, index)) == Some(
            byte_offset(text, other) as usize,
        ) ==> prev_boundary(text, index) == other,
        next_boundary(text, text.len() as int) == text.len(),
        prev_boundary(text, 0) == 0,
{
    lemma_boundaries(text, text.len() as int);
    lemma_boundaries(text, 0);
    lemma_char_at_byte_offset(text, other);
    lemma_byte_len_split(text, other);
}

/// A text is measured cluster by cluster: how many characters each has, and how many
/// columns it takes, which are four for a tab.
pub proof fn law_clusters_are_measured(text: Seq<char>, index: int)
    requires
        0 <= index < clusters(text).len(),
        clusters(text)[index].len() <= usize::MAX,
    ensures
        measured(text).len() == clusters(text).len(),
        measured(text)[index].length == clusters(text)[index].len(),
        measured(text)[index].is_tab <==> clusters(text)[index] == seq!['\t'],
        measured(text)[index].is_tab ==> measured(text)[index].width == 4,
        !measured(text)[index].is_tab ==> measured(text)[index].width == display_width(
            clusters(text)[index],
        ),
{
}

/// A tab takes four columns, and every other cluster as many as a terminal gives it.
pub proof fn law_tabs_take_four_columns(cluster: Seq<char>)
    ensures
        cluster == seq!['\t'] ==> cluster_width(cluster) == 4,
        cluster != seq!['\t'] ==> cluster_width(cluster) == display_width(cluster),
{
}

/// Clusters have the characters and the columns of each of them, added up.
pub proof fn law_clusters_add_up(pieces: Seq<Cluster>, piece: Cluster)
    ensures
        total_length(pieces.push(piece)) == total_length(pieces) + piece.length,
        total_width(pieces.push(piece)) == total_width(pieces) + piece.width,
        total_length(Seq::<Cluster>::empty()) == 0,
        total_width(Seq::<Cluster>::empty()) == 0,
{
    assert(pieces.push(piece).drop_last() =~= pieces);
}

/// The line break of a line is all that is left of the line behind its body: the body
/// has no character that breaks lines, the rest has no other, and only the last line
/// has no rest.
pub proof fn law_lines_are_body_and_break(text: Seq<char>, line: int)
    requires
        0 <= line < line_count(text),
    ensures
        line_start(text, line) <= break_start(text, line) <= line_end(text, line),
        line_body(text, line) == text.subrange(line_start(text, line), break_start(text, line)),
        forall|i: int|
            line_start(text, line) <= i < break_start(text, line) ==> !is_break(
                #[trigger] text[i],
            ),
        forall|i: int|
            break_start(text, line) <= i < line_end(text, line) ==> is_break(#[trigger] text[i]),
        break_start(text, line) == line_end(text, line) <==> line == line_count(text) - 1,
{
    let start = line_start(text, line);
    let end = line_end(text, line);
    let stop = break_start(text, line);
    lemma_line_bounds(text, line);
    lemma_break_start(text, line);
    assert forall|i: int| start <= i < stop implies !is_break(#[trigger] text[i]) by {
        lemma_no_end_within(text, line, i);
        if is_break(text[i]) {
            assert(text[i] == '\r' && i + 1 < text.len() && text[i + 1] == '\n');
            if i + 1 < end - 1 || line + 1 >= line_count(text) {
                lemma_no_end_within(text, line, i + 1);
                assert(ends_line(text, i + 1));
            }
        }
    }
}

/// No line ends before its last character.
proof fn lemma_no_end_within(text: Seq<char>, line: int, index: int)
    requires
        0 <= line < line_count(text),
        line_start(text, line) <= index < line_end(text, line),
        index < line_end(text, line) - 1 || line + 1 >= line_count(text),
    ensures
        !ends_line(text, index),
{
    let end = line_end(text, line);
    lemma_line_start(text, line);
    lemma_line_bounds(text, line);
    lemma_line_of_order(text, line_start(text, line), index + 1);
    if line + 1 < line_count(text) {
        lemma_line_start(text, line + 1);
        lemma_line_of_order(text, index + 1, end - 1);
        assert(line_of(text, end) == line_of(text, end - 1) + 1);
    } else {
        lemma_line_of_order(text, index + 1, text.len() as int);
    }
    if ends_line(text, index) {
        lemma_line_of_order(text, line_start(text, line), index);
    }
}

/// Moving left and right goes to the cluster that ends where this one starts, and to
/// the one that starts where this one ends. The ends of the text are as far as it goes.
/// The column is forgotten, the selection is not.
pub proof fn law_clusters_follow_one_another(text: Seq<char>, cursor: CursorModel)
    requires
        within(cursor, text),
    ensures
        cursor.start == 0 ==> left(text, cursor) == cursor,
        cursor.start > 0 ==> {
            &&& left(text, cursor).start == prev_boundary(text, cursor.start) < cursor.start
            &&& left(text, cursor).end == cursor.start
            &&& left(text, cursor).column is None
        },
        cursor.end < text.len() ==> {
            &&& right(text, cursor).start == cursor.end
            &&& right(text, cursor).end == next_boundary(text, cursor.end) > cursor.end
        },
        cursor.end >= text.len() ==> right(text, cursor).start == cursor.start && right(
            text,
            cursor,
        ).end == cursor.end,
        right(text, cursor).column is None,
        left(text, cursor).select == cursor.select,
        right(text, cursor).select == cursor.select,
{
    lemma_boundaries(text, cursor.start);
    if cursor.end <= text.len() {
        lemma_boundaries(text, cursor.end);
    }
}

/// Several motions to the right are that many of one.
pub proof fn law_motions_right_add_up(text: Seq<char>, cursor: CursorModel, n: nat)
    ensures
        right_n(text, cursor, 0) == cursor,
        right_n(text, cursor, n + 1) == right(text, right_n(text, cursor, n)),
{
}

/// The start of the line is where the text starts, or a line break ends, with none
/// between it and the cursor.
pub proof fn law_start_of_line_is_behind_a_break(text: Seq<char>, cursor: CursorModel)
    requires
        within(cursor, text),
    ensures
        ({
            let start = start_of_line(text, cursor).start;
            &&& 0 <= start <= cursor.start
            &&& start == 0 || ends_line(text, start - 1)
            &&& forall|i: int| start <= i < cursor.start ==> !#[trigger] ends_line(text, i)
        }),
        start_of_line(text, cursor).end == next_boundary(text, start_of_line(text, cursor).start),
        start_of_line(text, cursor).column is None,
        start_of_line(text, cursor).select == cursor.select,
{
    let start = line_start(text, line_of(text, cursor.start));
    lemma_line_of_contains(text, cursor.start);
    lemma_line_start(text, line_of(text, cursor.start));
    lemma_line_of_order(text, start, cursor.start);
}

/// The end of the line is the line break next behind its start, or the end of the text.
pub proof fn law_end_of_line_is_a_break(text: Seq<char>, cursor: CursorModel)
    requires
        within(cursor, text),
    ensures
        ({
            let start = end_of_line(text, cursor).start;
            &&& start_of_line(text, cursor).start <= start <= text.len()
            &&& start == text.len() || is_break(text[start])
            &&& forall|i: int|
                start_of_line(text, cursor).start <= i < start ==> !is_break(#[trigger] text[i])
        }),
        end_of_line(text, cursor).end == next_boundary(text, end_of_line(text, cursor).start),
        end_of_line(text, cursor).column is None,
        end_of_line(text, cursor).select == cursor.select,
{
    let line = line_of(text, cursor.start);
    lemma_line_of_contains(text, cursor.start);
    law_lines_are_body_and_break(text, line);
    lemma_line_bounds(text, line);
    if break_start(text, line) < line_end(text, line) {
        assert(is_break(text[break_start(text, line)]));
    }
}

/// The start of the buffer is its first cluster, and its end the last one.
pub proof fn law_buffer_has_two_ends(text: Seq<char>, cursor: CursorModel)
    ensures
        start_of_buffer(text, cursor) == (CursorModel {
            start: 0,
            end: next_boundary(text, 0),
            column: None,
            select: cursor.select,
        }),
        end_of_buffer(text, cursor) == (CursorModel {
            start: prev_boundary(text, text.len() as int),
            end: text.len() as int,
            column: None,
            select: cursor.select,
        }),
{
}

/// The selection goes from the earlier of mark and cursor to the later one. Without a
/// mark, or with one at the cursor, it is what is under the cursor.
pub proof fn law_selection_is_between_mark_and_cursor(cursor: CursorModel, mark: int)
    ensures
        cursor.select == Some(mark) && mark < cursor.start ==> selected(cursor) == (
            mark,
            cursor.start,
        ),
        cursor.select == Some(mark) && mark > cursor.start ==> selected(cursor) == (
            cursor.start,
            mark,
        ),
        cursor.select is None || cursor.select == Some(cursor.start) ==> selected(cursor) == (
            cursor.start,
            cursor.end,
        ),
{
}

/// Whether so many characters of a line are those of the clusters that fit in the
/// given columns, and of no fewer.
pub open spec fn reaches_column(pieces: Seq<Cluster>, columns: int, length: int) -> bool {
    exists|n: int|
        {
            &&& 0 <= n <= pieces.len()
            &&& length == #[trigger] total_length(pieces.take(n))
            &&& total_width(pieces.take(n)) <= columns
            &&& n < pieces.len() ==> total_width(pieces.take(n + 1)) > columns
        }
}

/// Whether a motion has led a cursor to a line: to the cluster there that is in the
/// column the cursor was in, or was in before it came to a shorter line.
pub open spec fn is_led_to_line(
    text: Seq<char>,
    cursor: CursorModel,
    line: int,
    after: CursorModel,
) -> bool {
    let before = text.subrange(line_start(text, line_of(text, cursor.start)), cursor.start);
    let width = total_width(measured(before));
    let column = match cursor.column {
        Some(column) => column,
        None => if width <= usize::MAX {
            width
        } else {
            usize::MAX as int
        },
    };
    &&& line_of(text, after.start) == line
    &&& after.column == Some(column)
    &&& after.select == cursor.select
    &&& after.end == next_boundary(text, after.start)
    &&& total_length(measured(line_body(text, line))) == line_body(text, line).len()
        ==> reaches_column(
        measured(line_body(text, line)),
        column,
        after.start - line_start(text, line),
    )
}

proof fn lemma_totals_from_first(pieces: Seq<Cluster>, n: int)
    requires
        0 <= n < pieces.len(),
    ensures
        total_length(pieces.take(n + 1)) == pieces[0].length + total_length(
            pieces.drop_first().take(n),
        ),
        total_width(pieces.take(n + 1)) == pieces[0].width + total_width(
            pieces.drop_first().take(n),
        ),
    decreases n,
{
    let rest = pieces.drop_first();
    assert(pieces.take(n + 1).drop_last() =~= pieces.take(n));
    if n == 0 {
        assert(pieces.take(0) =~= Seq::<Cluster>::empty());
        assert(rest.take(0) =~= Seq::<Cluster>::empty());
    } else {
        lemma_totals_from_first(pieces, n - 1);
        assert(rest.take(n).drop_last() =~= rest.take(n - 1));
        assert(rest.take(n).last() == pieces[n]);
    }
}

proof fn lemma_chars_within_reach(pieces: Seq<Cluster>, columns: int) -> (n: int)
    requires
        columns >= 0,
    ensures
        0 <= n <= pieces.len(),
        chars_within(pieces, columns) == total_length(pieces.take(n)),
        total_width(pieces.take(n)) <= columns,
        n < pieces.len() ==> total_width(pieces.take(n + 1)) > columns,
    decreases pieces.len(),
{
    assert(pieces.take(0) =~= Seq::<Cluster>::empty());
    if pieces.len() == 0 {
        0
    } else if pieces[0].width > columns {
        lemma_totals_from_first(pieces, 0);
        assert(pieces.drop_first().take(0) =~= Seq::<Cluster>::empty());
        0
    } else {
        let n = lemma_chars_within_reach(pieces.drop_first(), columns - pieces[0].width);
        lemma_totals_from_first(pieces, n);
        if n + 1 < pieces.len() {
            lemma_totals_from_first(pieces, n + 1);
        }
        n + 1
    }
}

proof fn lemma_length_order(pieces: Seq<Cluster>, n: int)
    requires
        0 <= n <= pieces.len(),
    ensures
        0 <= total_length(pieces.take(n)) <= total_length(pieces),
    decreases pieces.len() - n, n,
{
    if n == pieces.len() {
        assert(pieces.take(n) =~= pieces);
        if n > 0 {
            lemma_length_order(pieces.drop_last(), n - 1);
            assert(pieces.drop_last().take(n - 1) =~= pieces.drop_last());
        }
    } else {
        lemma_length_order(pieces, n + 1);
        assert(pieces.take(n + 1).drop_last() =~= pieces.take(n));
        lemma_length_at_least_zero(pieces.take(n));
    }
}

proof fn lemma_length_at_least_zero(pieces: Seq<Cluster>)
    ensures
        total_length(pieces) >= 0,
        total_width(pieces) >= 0,
    decreases pieces.len(),
{
    if pieces.len() > 0 {
        lemma_length_at_least_zero(pieces.drop_last());
    }
}

proof fn lemma_to_line_leads(text: Seq<char>, cursor: CursorModel, line: int)
    requires
        within(cursor, text),
        cursor.column matches Some(column) ==> column >= 0,
        0 <= line < line_count(text),
        line_of(text, to_line(text, cursor, line).start) == line,
    ensures
        is_led_to_line(text, cursor, line, to_line(text, cursor, line)),
{
    let before = text.subrange(line_start(text, line_of(text, cursor.start)), cursor.start);
    let pieces = measured(line_body(text, line));
    let column = kept_column(text, cursor);
    lemma_length_at_least_zero(measured(before));
    lemma_break_start(text, line);
    let n = lemma_chars_within_reach(pieces, column);
    lemma_length_order(pieces, n);
    assert(chars_within(pieces, column) == total_length(pieces.take(n)));
}

/// Moving up and down leads to the line before and to the one behind, in the column of
/// the cursor. On the first line, and on the last one with text, the cursor stays.
pub proof fn law_lines_follow_one_another(text: Seq<char>, cursor: CursorModel)
    requires
        within(cursor, text),
        cursor.column matches Some(column) ==> column >= 0,
    ensures
        ({
            let line = line_of(text, cursor.start);
            &&& line == 0 ==> up(text, cursor) == cursor
            &&& line > 0 ==> is_led_to_line(text, cursor, line - 1, up(text, cursor))
            &&& line_start(text, line + 1) == text.len() ==> down(text, cursor) == cursor
            &&& line_start(text, line + 1) < text.len() ==> is_led_to_line(
                text,
                cursor,
                line + 1,
                down(text, cursor),
            )
        }),
{
    let line = line_of(text, cursor.start);
    lemma_line_of_contains(text, cursor.start);
    law_up_moves_one_line(text, cursor);
    law_down_moves_one_line(text, cursor);
    if line > 0 {
        lemma_to_line_leads(text, cursor, line - 1);
    }
    if line_start(text, line + 1) < text.len() {
        lemma_to_line_leads(text, cursor, line + 1);
    }
}

/// Several motions down lead as many lines down as they are, as far as there is text.
pub proof fn law_motions_down_count_lines(text: Seq<char>, cursor: CursorModel, n: nat)
    requires
        within(cursor, text),
        cursor.column matches Some(column) ==> column >= 0,
    ensures
        ({
            let line = line_of(text, cursor.start);
            let after = down_n(text, cursor, n);
            let reached = line_of(text, after.start);
            &&& within(after, text)
            &&& line <= reached <= line + n
            &&& n == 0 || line_start(text, line + n) < text.len() ==> reached == line + n
            &&& reached < line + n ==> line_start(text, reached + 1) == text.len()
            &&& reached == line ==> after == cursor
            &&& reached > line ==> is_led_to_line(text, cursor, reached, after)
        }),
    decreases n,
{
    if n > 0 {
        let line = line_of(text, cursor.start);
        let before = down_n(text, cursor, (n - 1) as nat);
        let reached = line_of(text, before.start);
        law_motions_down_count_lines(text, cursor, (n - 1) as nat);
        lemma_line_of_contains(text, cursor.start);
        lemma_line_of_contains(text, before.start);
        lemma_line_bounds(text, reached);
        law_motions_stay_within(text, before);
        lemma_length_at_least_zero(
            measured(text.subrange(line_start(text, line), cursor.start)),
        );
        law_lines_follow_one_another(text, before);
        if line_start(text, line + n) < text.len() {
            lemma_line_starts_in_order(text, line + n - 1, line + n);
        }
        if reached < line + n - 1 && line_start(text, line + n) < text.len() {
            lemma_line_starts_in_order(text, reached + 1, line + n);
        }
    }
}

/// Several motions up lead as many lines up as they are, as far as there are lines.
pub proof fn law_motions_up_count_lines(text: Seq<char>, cursor: CursorModel, n: nat)
    requires
        within(cursor, text),
        cursor.column matches Some(column) ==> column >= 0,
    ensures
        ({
            let line = line_of(text, cursor.start);
            let after = up_n(text, cursor, n);
            let reached = line_of(text, after.start);
            &&& within(after, text)
            &&& reached == if line >= n {
                line - n
            } else {
                0
            }
            &&& reached == line ==> after == cursor
            &&& reached < line ==> is_led_to_line(text, cursor, reached, after)
        }),
    decreases n,
{
    lemma_line_of_contains(text, cursor.start);
    if n > 0 {
        let before = up_n(text, cursor, (n - 1) as nat);
        law_motions_up_count_lines(text, cursor, (n - 1) as nat);
        lemma_line_of_contains(text, before.start);
        law_motions_stay_within(text, before);
        lemma_length_at_least_zero(
            measured(text.subrange(line_start(text, line_of(text, cursor.start)), cursor.start)),
        );
        law_lines_follow_one_another(text, before);
    }
}

proof fn lemma_line_starts_in_order(text: Seq<char>, i: int, j: int)
    requires
        0 <= i <= j,
        line_start(text, j) < text.len(),
    ensures
        j < line_count(text),
        line_start(text, i) <= line_start(text, j),
    decreases j - i,
{
    if i < j {
        lemma_line_bounds(text, j - 1);
        lemma_line_starts_in_order(text, i, j - 1);
    }
}

} // verus!
