//! Grapheme-cluster boundary lookups over a rope.
//!
//! Cursor motion and deletion must step by whole grapheme clusters, never by
//! `char` or byte: otherwise a `👨‍👩‍👧‍👦` ZWJ sequence or a combining-mark cluster
//! would be split and the buffer corrupted.

use ropey::Rope;
use unicode_segmentation::{GraphemeCursor, UnicodeSegmentation};
use unicode_width::UnicodeWidthStr;
use vstd::prelude::*;
use vstd::utf8::*;

use crate::bytes::{boundary, lemma_boundary_ends, slice, text_between};
use crate::rope::{rope_bytes, rope_text, rope_to_string};
use crate::strings::{byte_len, byte_length, views};

verus! {

/// The grapheme boundary after byte `byte` of `text`.
pub uninterp spec fn cluster_end(text: Seq<char>, byte: usize) -> usize;

/// The grapheme boundary before byte `byte` of `text`.
pub uninterp spec fn cluster_start(text: Seq<char>, byte: usize) -> usize;

/// The bytes at which the grapheme clusters of `text` begin.
pub uninterp spec fn clusters(text: Seq<char>) -> Seq<usize>;

/// The number of terminal columns that `text` takes.
pub uninterp spec fn columns(text: Seq<char>) -> usize;

/// Whether a character is printable ASCII.
pub open spec fn printable(c: char) -> bool {
    0x20 <= (c as u32) <= 0x7e
}

/// Whether a text is printable ASCII.
pub open spec fn ascii_text(text: Seq<char>) -> bool {
    forall|i: int| 0 <= i < text.len() ==> printable(#[trigger] text[i])
}

/// Where the `i`-th cluster of a text ends.
pub open spec fn cluster_stop(content: Seq<char>, i: int) -> int {
    if i + 1 < clusters(content).len() {
        clusters(content)[i + 1] as int
    } else {
        byte_len(content) as int
    }
}

/// The `i`-th cluster of a text.
pub open spec fn cluster_text(content: Seq<char>, i: int) -> Seq<char> {
    text_between(encode_utf8(content), clusters(content)[i] as int, cluster_stop(content, i))
}

/// The grapheme clusters of a text.
pub open spec fn cluster_texts(text: Seq<char>) -> Seq<Seq<char>> {
    Seq::new(clusters(text).len(), |i: int| cluster_text(text, i))
}

/// `GraphemeCursor::next_boundary` finds the next boundary after a place inside the
/// text: a later place where a character begins, or the end. Which one depends on the
/// text and the place.
#[verifier::external_body]
pub(crate) fn next_boundary(text: &str, byte: usize) -> (next: usize)
    requires
        byte < byte_len(text@),
        boundary(encode_utf8(text@), byte as int),
    ensures
        next == cluster_end(text@, byte),
        byte < next <= byte_len(text@),
        boundary(encode_utf8(text@), next as int),
{
    let mut cursor = GraphemeCursor::new(byte, text.len(), true);
    cursor.next_boundary(text, 0).unwrap().unwrap()
}

/// `GraphemeCursor::prev_boundary` finds the last boundary before a place that is not
/// the beginning of the text: an earlier place where a character begins. Which one
/// depends on the text and the place.
#[verifier::external_body]
pub(crate) fn prev_boundary(text: &str, byte: usize) -> (prev: usize)
    requires
        0 < byte <= byte_len(text@),
        boundary(encode_utf8(text@), byte as int),
    ensures
        prev == cluster_start(text@, byte),
        prev < byte,
        boundary(encode_utf8(text@), prev as int),
{
    let mut cursor = GraphemeCursor::new(byte, text.len(), true);
    cursor.prev_boundary(text, 0).unwrap().unwrap()
}

/// `UnicodeSegmentation::grapheme_indices` cuts a text into its extended grapheme
/// clusters. Their beginnings follow one another from the first byte on, each where a
/// character begins; where exactly depends on the text. Every character of a text of
/// printable ASCII is a cluster of its own.
#[verifier::external_body]
pub(crate) fn cluster_starts(text: &str) -> (starts: Vec<usize>)
    ensures
        starts@ == clusters(text@),
        starts@.len() == 0 <==> text@.len() == 0,
        starts@.len() > 0 ==> starts@[0] == 0,
        forall|i: int|
            0 <= i < starts@.len() ==> (#[trigger] starts@[i]) < byte_len(text@) && boundary(
                encode_utf8(text@),
                starts@[i] as int,
            ),
        forall|i: int, j: int| 0 <= i < j < starts@.len() ==> starts@[i] < starts@[j],
        ascii_text(text@) ==> starts@ == Seq::new(text@.len(), |i: int| i as usize),
{
    text.grapheme_indices(true).map(|(start, _)| start).collect()
}

/// `UnicodeWidthStr::width` gives the number of columns of a text, which depends on the
/// text alone. A printable ASCII character takes one.
#[verifier::external_body]
pub(crate) fn width(text: &str) -> (n: usize)
    ensures
        n == columns(text@),
        text@.len() == 1 && printable(text@[0]) ==> n == 1,
{
    UnicodeWidthStr::width(text)
}

/// The grapheme clusters of a text.
pub fn graphemes(text: &str) -> (out: Vec<String>)
    ensures
        views(out@) == cluster_texts(text@),
{
    let starts = cluster_starts(text);
    let len: usize = byte_length(text);
    let ghost b = encode_utf8(text@);
    proof {
        encode_utf8_valid_utf8(text@);
        lemma_boundary_ends(b);
    }
    let count: usize = starts.len();
    let mut out: Vec<String> = Vec::new();
    let mut i: usize = 0;
    while i < count
        invariant
            b == encode_utf8(text@),
            len == b.len(),
            boundary(b, len as int),
            count == starts@.len(),
            starts@ == clusters(text@),
            forall|i: int|
                0 <= i < starts@.len() ==> (#[trigger] starts@[i]) < len && boundary(
                    b,
                    starts@[i] as int,
                ),
            forall|i: int, j: int| 0 <= i < j < starts@.len() ==> starts@[i] < starts@[j],
            i <= count,
            out@.len() == i,
            forall|k: int| 0 <= k < i ==> (#[trigger] out@[k])@ == cluster_text(text@, k),
        decreases count - i,
    {
        let from: usize = starts[i];
        let to: usize = if i + 1 < count {
            starts[i + 1]
        } else {
            len
        };
        assert(boundary(b, to as int));
        assert(from < to);
        let part = slice(text, from, to).to_owned();
        out.push(part);
        i += 1;
    }
    assert(views(out@) =~= cluster_texts(text@));
    out
}

/// The start of the cluster after the one at `byte`, or the end of the text.
pub open spec fn next_cluster(text: Seq<char>, byte: int) -> int {
    if byte >= byte_len(text) {
        byte_len(text) as int
    } else {
        cluster_end(text, byte as usize) as int
    }
}

/// The start of the cluster before `byte`, or the beginning of the text.
pub open spec fn prev_cluster(text: Seq<char>, byte: int) -> int {
    if byte == 0 {
        0
    } else {
        cluster_start(text, byte as usize) as int
    }
}

/// Byte offset of the grapheme boundary after `byte` (i.e. the start of the next
/// cluster). Returns the length of the document at its end.
pub fn next_grapheme(rope: &Rope, byte: usize) -> (next: usize)
    requires
        byte < rope_bytes(*rope).len() ==> boundary(rope_bytes(*rope), byte as int),
    ensures
        next == next_cluster(rope_text(*rope), byte as int),
        byte < rope_bytes(*rope).len() ==> byte < next,
        next <= rope_bytes(*rope).len(),
        boundary(rope_bytes(*rope), next as int),
{
    let text = rope_to_string(rope);
    next_in(text.as_str(), byte)
}

/// Byte offset of the grapheme boundary strictly before `byte` (i.e. the start
/// of the previous cluster). Returns `0` at the start of the document.
pub fn prev_grapheme(rope: &Rope, byte: usize) -> (prev: usize)
    requires
        boundary(rope_bytes(*rope), byte as int),
    ensures
        prev == prev_cluster(rope_text(*rope), byte as int),
        byte > 0 ==> prev < byte,
        boundary(rope_bytes(*rope), prev as int),
{
    let text = rope_to_string(rope);
    prev_in(text.as_str(), byte)
}

/// [`next_grapheme`] in a text.
pub fn next_in(text: &str, byte: usize) -> (next: usize)
    requires
        byte < byte_len(text@) ==> boundary(encode_utf8(text@), byte as int),
    ensures
        next == next_cluster(text@, byte as int),
        byte < byte_len(text@) ==> byte < next,
        next <= byte_len(text@),
        boundary(encode_utf8(text@), next as int),
{
    let len: usize = byte_length(text);
    proof {
        encode_utf8_valid_utf8(text@);
        lemma_boundary_ends(encode_utf8(text@));
    }
    if byte >= len {
        return len;
    }
    next_boundary(text, byte)
}

/// [`prev_grapheme`] in a text.
pub fn prev_in(text: &str, byte: usize) -> (prev: usize)
    requires
        boundary(encode_utf8(text@), byte as int),
    ensures
        prev == prev_cluster(text@, byte as int),
        byte > 0 ==> prev < byte,
        boundary(encode_utf8(text@), prev as int),
{
    proof {
        encode_utf8_valid_utf8(text@);
        lemma_boundary_ends(encode_utf8(text@));
    }
    if byte == 0 {
        return 0;
    }
    prev_boundary(text, byte)
}

} // verus!
