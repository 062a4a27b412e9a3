//! Grapheme clusters: what a reader takes for one character.
//!
//! Where clusters begin and end is decided by the `unicode-segmentation` crate,
//! and how wide they are on a terminal by the `unicode-width` crate.

use ropey::Rope;
use unicode_segmentation::{GraphemeCursor, UnicodeSegmentation};
use unicode_width::UnicodeWidthStr;
use vstd::prelude::*;
use vstd::string::*;

use crate::lines::ends_line;
use crate::rope::{contents, joined, text_range, views};
use crate::utf8::{
    byte_len, byte_offset, char_at_byte, is_char_start, lemma_byte_len_split,
    lemma_byte_offset_increases, lemma_char_at_byte_bounds, lemma_char_at_byte_offset, storable,
};

verus! {

/// How many columns a tab takes.
pub const TAB_WIDTH: usize = 4;

/// The byte at which the cluster boundary next behind `byte` lies.
pub uninterp spec fn boundary_after_byte(text: Seq<char>, byte: int) -> Option<usize>;

/// The byte at which the cluster boundary next before `byte` lies.
pub uninterp spec fn boundary_before_byte(text: Seq<char>, byte: int) -> Option<usize>;

/// The clusters of a text, in order.
pub uninterp spec fn clusters(text: Seq<char>) -> Seq<Seq<char>>;

/// How many columns of a terminal a text takes.
pub uninterp spec fn display_width(text: Seq<char>) -> usize;

/// [`GraphemeCursor::next_boundary`], on the whole of a text and with extended
/// clusters: there is a boundary behind every byte but the end of the text, and
/// a character starts, or the text ends, at the boundary.
#[verifier::external_body]
fn find_boundary_after(text: &str, byte: usize) -> (boundary: Option<usize>)
    requires
        is_char_start(text@, byte as int),
    ensures
        boundary == boundary_after_byte(text@, byte as int),
        boundary is None <==> byte == byte_len(text@),
        boundary matches Some(next) ==> byte < next && is_char_start(text@, next as int),
{
    GraphemeCursor::new(byte, text.len(), true).next_boundary(text, 0).unwrap_or(None)
}

/// [`GraphemeCursor::prev_boundary`], on the whole of a text and with extended
/// clusters: there is a boundary before every byte but the first, and a
/// character starts at the boundary.
///
/// It is the last one before the byte: no byte from which the byte is the next
/// boundary comes before it, and from it, too, the byte is the next one. The end of the
/// text is a boundary, and so is the place behind every line break.
#[verifier::external_body]
fn find_boundary_before(text: &str, byte: usize) -> (boundary: Option<usize>)
    requires
        is_char_start(text@, byte as int),
    ensures
        boundary == boundary_before_byte(text@, byte as int),
        boundary is None <==> byte == 0,
        boundary matches Some(previous) ==> previous < byte && is_char_start(
            text@,
            previous as int,
        ),
        boundary matches Some(previous) ==> forall|before: int|
            #![trigger boundary_after_byte(text@, before)]
            is_char_start(text@, before) && before < byte && boundary_after_byte(text@, before)
                == Some(byte) ==> previous <= before && boundary_after_byte(text@, previous as int)
                == Some(byte),
        boundary matches Some(previous) ==> byte == byte_len(text@) ==> boundary_after_byte(
            text@,
            previous as int,
        ) == Some(byte),
        boundary matches Some(previous) ==> forall|i: int|
            #[trigger] ends_line(text@, i) && byte_offset(text@, i + 1) < byte ==> byte_offset(
                text@,
                i + 1,
            ) <= previous,
{
    GraphemeCursor::new(byte, text.len(), true).prev_boundary(text, 0).unwrap_or(None)
}

/// [`UnicodeSegmentation::graphemes`], with extended clusters: no cluster is
/// empty, and together the clusters are the text.
#[verifier::external_body]
fn graphemes(text: &str) -> (pieces: Vec<String>)
    ensures
        views(pieces@) == clusters(text@),
        joined(views(pieces@)) == text@,
        forall|i: int| 0 <= i < pieces@.len() ==> (#[trigger] pieces@[i])@.len() > 0,
{
    text.graphemes(true).map(String::from).collect()
}

/// [`UnicodeWidthStr::width`] of a string.
#[verifier::external_body]
fn columns(text: &str) -> (width: usize)
    ensures
        width == display_width(text@),
{
    UnicodeWidthStr::width(text)
}

/// The cluster boundary next behind `index`, counted in characters. The end of the
/// text is one.
pub open spec fn next_boundary(text: Seq<char>, index: int) -> int {
    match boundary_after_byte(text, byte_offset(text, index)) {
        Some(byte) if index < char_at_byte(text, byte as int) => char_at_byte(text, byte as int),
        _ => text.len() as int,
    }
}

/// The cluster boundary next before `index`, counted in characters. The start of
/// the text is one.
pub open spec fn prev_boundary(text: Seq<char>, index: int) -> int {
    match boundary_before_byte(text, byte_offset(text, index)) {
        Some(byte) if char_at_byte(text, byte as int) < index => char_at_byte(text, byte as int),
        _ => 0,
    }
}

/// Whether the cluster boundary next behind `index` is at `end`.
pub open spec fn cluster_ends(text: Seq<char>, index: int, end: int) -> bool {
    boundary_after_byte(text, byte_offset(text, index)) == Some(byte_offset(text, end) as usize)
}

/// Whether a cluster starts and ends as given.
pub open spec fn is_cluster(text: Seq<char>, start: int, end: int) -> bool {
    &&& 0 <= start < end <= text.len()
    &&& next_boundary(text, start) == end
    &&& prev_boundary(text, end) == start
}

/// Where a cluster ends is the boundary next behind it.
pub proof fn lemma_cluster_ends(text: Seq<char>, index: int, end: int)
    requires
        storable(text),
        0 <= index < end <= text.len(),
        cluster_ends(text, index, end),
    ensures
        next_boundary(text, index) == end,
{
    lemma_char_at_byte_offset(text, end);
    lemma_byte_len_split(text, end);
}

/// Between a position within the text and its end there is a boundary, and so
/// there is between the start of the text and a position behind it.
pub proof fn lemma_boundaries(text: Seq<char>, index: int)
    requires
        0 <= index <= text.len(),
    ensures
        index < text.len() ==> index < next_boundary(text, index) <= text.len(),
        index == text.len() ==> next_boundary(text, index) == index,
        index > 0 ==> 0 <= prev_boundary(text, index) < index,
        index == 0 ==> prev_boundary(text, index) == 0,
{
    if let Some(byte) = boundary_after_byte(text, byte_offset(text, index)) {
        lemma_char_at_byte_bounds(text, byte as int);
    }
    if let Some(byte) = boundary_before_byte(text, byte_offset(text, index)) {
        lemma_char_at_byte_bounds(text, byte as int);
    }
}

/// How many columns a cluster takes. A tab takes [`TAB_WIDTH`] of them.
pub open spec fn cluster_width(cluster: Seq<char>) -> int {
    if cluster == seq!['\t'] {
        TAB_WIDTH as int
    } else {
        display_width(cluster) as int
    }
}

/// What has to be known of a cluster to place it.
#[derive(Clone, Copy, Debug, PartialEq, Eq, Structural)]
pub struct Cluster {
    /// How many characters it is made of.
    pub length: usize,
    /// How many columns it takes.
    pub width: usize,
    pub is_tab: bool,
}

/// What there is to know of a cluster.
pub open spec fn measure(cluster: Seq<char>) -> Cluster {
    Cluster {
        length: cluster.len() as usize,
        width: cluster_width(cluster) as usize,
        is_tab: cluster == seq!['\t'],
    }
}

/// The clusters of a text, measured.
pub open spec fn measured(text: Seq<char>) -> Seq<Cluster> {
    Seq::new(clusters(text).len(), |i: int| measure(clusters(text)[i]))
}

/// How many characters several clusters are made of.
pub open spec fn total_length(pieces: Seq<Cluster>) -> int
    decreases pieces.len(),
{
    if pieces.len() == 0 {
        0
    } else {
        total_length(pieces.drop_last()) + pieces.last().length
    }
}

/// How many columns several clusters take together.
pub open spec fn total_width(pieces: Seq<Cluster>) -> int
    decreases pieces.len(),
{
    if pieces.len() == 0 {
        0
    } else {
        total_width(pieces.drop_last()) + pieces.last().width
    }
}

/// One more cluster adds its characters.
pub proof fn lemma_total_length_step(pieces: Seq<Cluster>, index: int)
    requires
        0 <= index < pieces.len(),
    ensures
        total_length(pieces.take(index + 1)) == total_length(pieces.take(index))
            + pieces[index].length,
        0 <= total_length(pieces.take(index)),
        total_length(pieces.take(index + 1)) <= total_length(pieces),
    decreases pieces.len(),
{
    assert(pieces.take(index + 1).drop_last() =~= pieces.take(index));
    if index > 0 {
        lemma_total_length_step(pieces.take(index), index - 1);
        assert(pieces.take(index).take(index) =~= pieces.take(index));
    }
    if index + 1 < pieces.len() {
        lemma_total_length_step(pieces.drop_last(), index);
        assert(pieces.drop_last().take(index + 1) =~= pieces.take(index + 1));
    } else {
        assert(pieces.take(index + 1) =~= pieces);
    }
}

/// One more cluster adds its columns.
pub proof fn lemma_total_width_step(pieces: Seq<Cluster>, index: int)
    requires
        0 <= index < pieces.len(),
    ensures
        total_width(pieces.take(index + 1)) == total_width(pieces.take(index))
            + pieces[index].width,
{
    assert(pieces.take(index + 1).drop_last() =~= pieces.take(index));
}

/// More clusters take no fewer columns.
pub proof fn lemma_total_width_order(pieces: Seq<Cluster>, i: int, j: int)
    requires
        0 <= i <= j <= pieces.len(),
    ensures
        total_width(pieces.take(i)) <= total_width(pieces.take(j)),
    decreases j - i,
{
    if i < j {
        lemma_total_width_step(pieces, j - 1);
        lemma_total_width_order(pieces, i, j - 1);
    }
}

proof fn lemma_char_start_order(text: Seq<char>, i: int, byte: int)
    requires
        0 <= i <= text.len(),
        is_char_start(text, byte),
    ensures
        byte > byte_offset(text, i) ==> i < char_at_byte(text, byte) <= text.len(),
        byte < byte_offset(text, i) ==> 0 <= char_at_byte(text, byte) < i,
        byte <= byte_len(text),
        byte_offset(text, char_at_byte(text, byte)) == byte,
{
    let j = choose|j: int| 0 <= j <= text.len() && byte == #[trigger] byte_offset(text, j);
    lemma_char_at_byte_offset(text, j);
    if i < j {
        lemma_byte_offset_increases(text, i, j);
    } else if j < i {
        lemma_byte_offset_increases(text, j, i);
    }
    assert(text.take(text.len() as int) =~= text);
    if j < text.len() {
        lemma_byte_offset_increases(text, j, text.len() as int);
    }
}

/// Finds the cluster boundary next behind a position.
pub fn next_grapheme_boundary(text: &Rope, char_idx: usize) -> (boundary: usize)
    requires
        char_idx <= contents(*text).len(),
        storable(contents(*text)),
    ensures
        boundary == next_boundary(contents(*text), char_idx as int),
        char_idx < contents(*text).len() ==> char_idx < boundary <= contents(*text).len(),
        char_idx == contents(*text).len() ==> boundary == char_idx,
        char_idx < contents(*text).len() ==> cluster_ends(
            contents(*text),
            char_idx as int,
            boundary as int,
        ),
{
    let ghost chars = contents(*text);
    let byte = text.char_to_byte(char_idx);
    let whole = text_range(text, 0, text.len_chars());
    proof {
        assert(chars.subrange(0, chars.len() as int) =~= chars);
        assert(chars.take(chars.len() as int) =~= chars);
        if char_idx < chars.len() {
            lemma_byte_offset_increases(chars, char_idx as int, chars.len() as int);
        }
    }
    match find_boundary_after(whole.as_str(), byte) {
        Some(next) => {
            proof {
                lemma_char_start_order(chars, char_idx as int, next as int);
            }
            text.byte_to_char(next)
        },
        None => text.len_chars(),
    }
}

/// Finds the cluster boundary next before a position. From there up to a position at
/// which a cluster ends, or up to the end of the text, is one cluster, and no line
/// starts within it.
pub fn prev_grapheme_boundary(text: &Rope, char_idx: usize) -> (boundary: usize)
    requires
        char_idx <= contents(*text).len(),
        storable(contents(*text)),
    ensures
        boundary == prev_boundary(contents(*text), char_idx as int),
        char_idx > 0 ==> boundary < char_idx,
        char_idx == 0 ==> boundary == 0,
        forall|k: int|
            0 <= k < char_idx && #[trigger] cluster_ends(contents(*text), k, char_idx as int)
                ==> boundary <= k && cluster_ends(
                contents(*text),
                boundary as int,
                char_idx as int,
            ),
        0 < char_idx == contents(*text).len() ==> cluster_ends(
            contents(*text),
            boundary as int,
            char_idx as int,
        ),
        forall|i: int|
            #[trigger] ends_line(contents(*text), i) && i + 1 < char_idx ==> i + 1 <= boundary,
{
    let ghost chars = contents(*text);
    let byte = text.char_to_byte(char_idx);
    let whole = text_range(text, 0, text.len_chars());
    proof {
        assert(chars.subrange(0, chars.len() as int) =~= chars);
        assert(chars.take(0) =~= Seq::<char>::empty());
        if char_idx > 0 {
            lemma_byte_offset_increases(chars, 0, char_idx as int);
        }
    }
    match find_boundary_before(whole.as_str(), byte) {
        Some(previous) => {
            proof {
                lemma_char_start_order(chars, char_idx as int, previous as int);
                let found = char_at_byte(chars, previous as int);
                assert(chars.take(chars.len() as int) =~= chars);
                assert forall|k: int|
                    0 <= k < char_idx && #[trigger] cluster_ends(
                        chars,
                        k,
                        char_idx as int,
                    ) implies found <= k && cluster_ends(chars, found, char_idx as int) by {
                    lemma_byte_offset_increases(chars, k, char_idx as int);
                    assert(is_char_start(chars, byte_offset(chars, k)));
                    if k < found {
                        lemma_byte_offset_increases(chars, k, found);
                    }
                }
                assert forall|i: int| #[trigger] ends_line(chars, i) && i + 1 < char_idx implies i
                    + 1 <= found by {
                    lemma_byte_offset_increases(chars, i + 1, char_idx as int);
                    if found < i + 1 {
                        lemma_byte_offset_increases(chars, found, i + 1);
                    }
                }
            }
            text.byte_to_char(previous)
        },
        None => 0,
    }
}

/// Whether a cluster is a tab.
pub fn is_tab(cluster: &str) -> (tab: bool)
    ensures
        tab == (cluster@ == seq!['\t']),
{
    let tab = cluster.unicode_len() == 1 && cluster.get_char(0) == '\t';
    assert(tab ==> cluster@ =~= seq!['\t']);
    tab
}

/// How many columns a cluster takes.
pub fn grapheme_width(cluster: &str) -> (width: usize)
    ensures
        width == cluster_width(cluster@),
{
    if is_tab(cluster) {
        TAB_WIDTH
    } else {
        columns(cluster)
    }
}

/// Measures the clusters of a text.
pub fn measure_clusters(text: &str) -> (pieces: Vec<Cluster>)
    ensures
        pieces@ == measured(text@),
        total_length(pieces@) == text@.len(),
        forall|i: int| 0 <= i < pieces@.len() ==> (#[trigger] pieces@[i]).length > 0,
{
    let strings = graphemes(text);
    let ghost all = views(strings@);
    let mut pieces: Vec<Cluster> = Vec::new();
    assert(all.take(0) =~= Seq::<Seq<char>>::empty());
    while pieces.len() < strings.len()
        invariant
            all == views(strings@),
            all == clusters(text@),
            pieces.len() <= strings.len(),
            pieces@ =~= measured(text@).take(pieces.len() as int),
            total_length(pieces@) == joined(all.take(pieces.len() as int)).len(),
            forall|i: int| 0 <= i < strings@.len() ==> (#[trigger] strings@[i])@.len() > 0,
            forall|i: int| 0 <= i < pieces@.len() ==> (#[trigger] pieces@[i]).length > 0,
        decreases strings.len() - pieces.len(),
    {
        let ghost before = pieces@;
        let i = pieces.len();
        let cluster = strings[i].as_str();
        pieces.push(
            Cluster {
                length: cluster.unicode_len(),
                width: grapheme_width(cluster),
                is_tab: is_tab(cluster),
            },
        );
        proof {
            assert(pieces@.drop_last() =~= before);
            assert(all.take(i + 1).drop_last() =~= all.take(i as int));
            assert(pieces@.last() == measure(all[i as int]));
        }
    }
    assert(all.take(pieces.len() as int) =~= all);
    pieces
}

} // verus!
