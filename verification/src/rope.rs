//! The rope that holds a document, and the lines it is made of.
//!
//! A document is a sequence of characters; offsets into it count UTF-8 bytes. A line
//! ends with its line break, and the text after the last break is a line too.

use ropey::Rope;
use vstd::prelude::*;
use vstd::utf8::*;

use crate::bytes::{boundary, lemma_boundary};
use crate::strings::{byte_len, lemma_bytes_concat};

verus! {

/// `ropey::Rope`, a tree of text chunks.
#[verifier::external_type_specification]
#[verifier::external_body]
pub struct ExRope(ropey::Rope);

/// The characters that a rope holds.
pub uninterp spec fn rope_text(rope: Rope) -> Seq<char>;

/// The bytes that a rope holds.
pub open spec fn rope_bytes(rope: Rope) -> Seq<u8> {
    encode_utf8(rope_text(rope))
}

/// Whether a line break ends at byte `p`: LF, VT, FF, CR on its own, CRLF, NEL, LS or
/// PS stands just before it.
pub open spec fn break_ends_at(b: Seq<u8>, p: int) -> bool {
    &&& 0 < p <= b.len()
    &&& {
        ||| 10 <= b[p - 1] <= 12
        ||| b[p - 1] == 13 && !(p < b.len() && b[p] == 10)
        ||| p >= 2 && b[p - 2] == 0xc2 && b[p - 1] == 0x85
        ||| p >= 3 && b[p - 3] == 0xe2 && b[p - 2] == 0x80 && (b[p - 1] == 0xa8 || b[p - 1] == 0xa9)
    }
}

/// The number of line breaks that end at or before byte `p`.
pub open spec fn breaks_before(b: Seq<u8>, p: int) -> int
    decreases p,
{
    if p <= 0 {
        0
    } else if break_ends_at(b, p) {
        breaks_before(b, p - 1) + 1
    } else {
        breaks_before(b, p - 1)
    }
}

/// The number of lines.
pub open spec fn line_count(b: Seq<u8>) -> int {
    breaks_before(b, b.len() as int) + 1
}

/// The first place at or after `p` with at least `line` breaks before it, or the end.
pub open spec fn place_after_breaks(b: Seq<u8>, line: int, p: int) -> int
    decreases b.len() - p,
{
    if p >= b.len() {
        b.len() as int
    } else if breaks_before(b, p) >= line {
        p
    } else {
        place_after_breaks(b, line, p + 1)
    }
}

/// Where a line begins; the end of the text for the line past the last.
pub open spec fn line_start(b: Seq<u8>, line: int) -> int {
    place_after_breaks(b, line, 0)
}

/// The bytes of a line, with its line break.
pub open spec fn line_bytes(b: Seq<u8>, line: int) -> Seq<u8> {
    b.subrange(line_start(b, line), line_start(b, line + 1))
}

/// The index of the character that the byte at `byte` belongs to.
pub open spec fn is_char_index(text: Seq<char>, byte: int, index: int) -> bool {
    &&& 0 <= index <= text.len()
    &&& byte_len(text.take(index)) <= byte
    &&& index < text.len() ==> byte < byte_len(text.take(index + 1))
}

/// `Rope::new` gives a rope without text.
#[verifier::external_body]
pub(crate) fn rope_new() -> (rope: Rope)
    ensures
        rope_text(rope) == Seq::<char>::empty(),
{
    Rope::new()
}

/// `Rope::from_str` gives a rope with the given text.
#[verifier::external_body]
pub(crate) fn rope_from_str(text: &str) -> (rope: Rope)
    ensures
        rope_text(rope) == text@,
{
    Rope::from_str(text)
}

/// `Rope::clone` gives a rope with the same text.
#[verifier::external_body]
pub(crate) fn rope_clone(rope: &Rope) -> (copy: Rope)
    ensures
        rope_text(copy) == rope_text(*rope),
{
    rope.clone()
}

/// `Rope`'s `Display` writes its text.
#[verifier::external_body]
pub(crate) fn rope_to_string(rope: &Rope) -> (text: String)
    ensures
        text@ == rope_text(*rope),
{
    rope.to_string()
}

/// `Rope::len_bytes` counts the bytes of the text.
#[verifier::external_body]
pub(crate) fn rope_len_bytes(rope: &Rope) -> (n: usize)
    ensures
        n == rope_bytes(*rope).len(),
{
    rope.len_bytes()
}

/// `Rope::len_lines` counts the line breaks, plus one.
#[verifier::external_body]
pub(crate) fn rope_len_lines(rope: &Rope) -> (n: usize)
    ensures
        n == line_count(rope_bytes(*rope)),
{
    rope.len_lines()
}

/// `Rope::byte_to_char` gives the index of the character that a byte belongs to, and
/// the number of characters at the end of the text.
#[verifier::external_body]
pub(crate) fn rope_byte_to_char(rope: &Rope, byte: usize) -> (index: usize)
    requires
        byte <= rope_bytes(*rope).len(),
    ensures
        is_char_index(rope_text(*rope), byte as int, index as int),
{
    rope.byte_to_char(byte)
}

/// `Rope::byte_to_line` counts the line breaks before a byte.
#[verifier::external_body]
pub(crate) fn rope_byte_to_line(rope: &Rope, byte: usize) -> (line: usize)
    requires
        byte <= rope_bytes(*rope).len(),
    ensures
        line == breaks_before(rope_bytes(*rope), byte as int),
{
    rope.byte_to_line(byte)
}

/// `Rope::line_to_byte` gives the byte at which a line begins, and the length of the
/// text for the line past the last.
#[verifier::external_body]
pub(crate) fn rope_line_to_byte(rope: &Rope, line: usize) -> (byte: usize)
    requires
        line <= line_count(rope_bytes(*rope)),
    ensures
        byte == line_start(rope_bytes(*rope), line as int),
{
    rope.line_to_byte(line)
}

/// `Rope::line` gives a line with its line break.
#[verifier::external_body]
pub(crate) fn rope_line(rope: &Rope, line: usize) -> (text: String)
    requires
        line < line_count(rope_bytes(*rope)),
    ensures
        encode_utf8(text@) == line_bytes(rope_bytes(*rope), line as int),
{
    rope.line(line).to_string()
}

/// `Rope::char` gives a character by its index.
#[verifier::external_body]
pub(crate) fn rope_char(rope: &Rope, index: usize) -> (c: char)
    requires
        index < rope_text(*rope).len(),
    ensures
        c == rope_text(*rope)[index as int],
{
    rope.char(index)
}

/// `Rope::byte` gives a byte of the text.
#[verifier::external_body]
pub(crate) fn rope_byte(rope: &Rope, at: usize) -> (b: u8)
    requires
        at < rope_bytes(*rope).len(),
    ensures
        b == rope_bytes(*rope)[at as int],
{
    rope.byte(at)
}

/// `Rope::slice` gives the text of a range of characters.
#[verifier::external_body]
pub(crate) fn rope_slice(rope: &Rope, from: usize, to: usize) -> (text: String)
    requires
        from <= to <= rope_text(*rope).len(),
    ensures
        text@ == rope_text(*rope).subrange(from as int, to as int),
{
    rope.slice(from..to).to_string()
}

/// `Rope::insert` puts text in front of the character at `index`.
#[verifier::external_body]
pub(crate) fn rope_insert(rope: &mut Rope, index: usize, text: &str)
    requires
        index <= rope_text(*old(rope)).len(),
    ensures
        rope_text(*final(rope)) == rope_text(*old(rope)).take(index as int) + text@ + rope_text(
            *old(rope),
        ).skip(index as int),
{
    rope.insert(index, text)
}

/// `Rope::remove` takes a range of characters out.
#[verifier::external_body]
pub(crate) fn rope_remove(rope: &mut Rope, from: usize, to: usize)
    requires
        from <= to <= rope_text(*old(rope)).len(),
    ensures
        rope_text(*final(rope)) == rope_text(*old(rope)).take(from as int) + rope_text(
            *old(rope),
        ).skip(to as int),
{
    rope.remove(from..to)
}

/// The breaks counted never exceed the bytes, and grow with the place.
pub proof fn lemma_breaks_before(b: Seq<u8>, p: int, q: int)
    requires
        p <= q,
    ensures
        breaks_before(b, p) <= breaks_before(b, q),
        breaks_before(b, q) - breaks_before(b, p) <= q - p,
        0 <= breaks_before(b, p),
    decreases q - p,
{
    if p < q {
        lemma_breaks_before(b, p, q - 1);
    } else {
        lemma_breaks_not_negative(b, p);
    }
}

proof fn lemma_breaks_not_negative(b: Seq<u8>, p: int)
    ensures
        0 <= breaks_before(b, p),
    decreases p,
{
    if p > 0 {
        lemma_breaks_not_negative(b, p - 1);
    }
}

/// What is before a place does not depend on the text from one byte after it on.
pub proof fn lemma_breaks_before_prefix(a: Seq<u8>, b: Seq<u8>, p: int)
    requires
        0 <= p < a.len(),
        p < b.len(),
        forall|i: int| 0 <= i <= p ==> a[i] == b[i],
    ensures
        breaks_before(a, p) == breaks_before(b, p),
    decreases p,
{
    if p > 0 {
        lemma_breaks_before_prefix(a, b, p - 1);
    }
}

proof fn lemma_place_after_breaks(b: Seq<u8>, line: int, p: int)
    requires
        0 <= p <= b.len(),
        p > 0 ==> breaks_before(b, p - 1) < line,
    ensures
        ({
            let q = place_after_breaks(b, line, p);
            &&& p <= q <= b.len()
            &&& q < b.len() ==> breaks_before(b, q) >= line
            &&& q > 0 && q > p ==> breaks_before(b, q - 1) < line
        }),
    decreases b.len() - p,
{
    if p < b.len() && breaks_before(b, p) < line {
        lemma_place_after_breaks(b, line, p + 1);
    }
}

/// Where a line begins: right after the break that ends the line before.
pub proof fn lemma_line_start(b: Seq<u8>, line: int)
    requires
        0 <= line <= line_count(b),
    ensures
        0 <= line_start(b, line) <= b.len(),
        line == 0 ==> line_start(b, line) == 0,
        line < line_count(b) ==> breaks_before(b, line_start(b, line)) == line,
        0 < line < line_count(b) ==> break_ends_at(b, line_start(b, line)),
        line == line_count(b) ==> line_start(b, line) == b.len(),
        forall|p: int| 0 <= p < line_start(b, line) ==> breaks_before(b, p) < line,
{
    lemma_place_after_breaks(b, line, 0);
    let q = line_start(b, line);
    assert forall|p: int| 0 <= p < q implies breaks_before(b, p) < line by {
        lemma_breaks_before(b, p, q - 1);
    }
    if line == line_count(b) && q < b.len() {
        lemma_breaks_before(b, q, b.len() as int);
    }
}

/// The line that a byte is on begins at or before it, and the next one after it.
pub proof fn lemma_line_of(b: Seq<u8>, p: int)
    requires
        0 <= p <= b.len(),
    ensures
        breaks_before(b, p) < line_count(b),
        line_start(b, breaks_before(b, p)) <= p,
        breaks_before(b, p) + 1 < line_count(b) ==> p < line_start(b, breaks_before(b, p) + 1),
        p <= line_start(b, breaks_before(b, p) + 1),
{
    lemma_breaks_before(b, p, b.len() as int);
    let l = breaks_before(b, p);
    lemma_line_start(b, l);
    lemma_line_start(b, l + 1);
    if line_start(b, l) > p {
        assert(breaks_before(b, p) < l);
    }
    if l + 1 < line_count(b) {
        if line_start(b, l + 1) <= p {
            lemma_breaks_before(b, line_start(b, l + 1), p);
        }
    }
}

/// Lines follow one another.
pub proof fn lemma_line_starts_grow(b: Seq<u8>, i: int, j: int)
    requires
        0 <= i <= j <= line_count(b),
    ensures
        0 <= line_start(b, i) <= line_start(b, j) <= b.len(),
        i < j && j < line_count(b) ==> line_start(b, i) < line_start(b, j),
{
    lemma_line_start(b, i);
    lemma_line_start(b, j);
    if i < j {
        if i < line_count(b) && line_start(b, j) < line_start(b, i) {
            assert(breaks_before(b, line_start(b, j)) < i);
            if j < line_count(b) {
                assert(false);
            }
        }
        if j < line_count(b) && line_start(b, i) == line_start(b, j) {
            assert(false);
        }
    }
}

/// Lines begin where characters begin.
pub proof fn lemma_line_start_boundary(b: Seq<u8>, line: int)
    requires
        valid_utf8(b),
        0 <= line <= line_count(b),
    ensures
        boundary(b, line_start(b, line)),
{
    lemma_line_start(b, line);
    crate::bytes::lemma_boundary_ends(b);
    let q = line_start(b, line);
    if 0 < line && q < b.len() {
        assert(break_ends_at(b, q));
        lemma_break_boundary(b, q);
    }
}

proof fn lemma_suffix_break(b: Seq<u8>, s: int, p: int)
    requires
        boundary(b, s),
        0 < p <= b.len() - s,
    ensures
        break_ends_at(b.skip(s), p) == break_ends_at(b, s + p),
{
    let t = b.skip(s);
    assert(t[p - 1] == b[s + p - 1]);
    if p < t.len() {
        assert(t[p] == b[s + p]);
    }
    if p >= 2 {
        assert(t[p - 2] == b[s + p - 2]);
    }
    if p >= 3 {
        assert(t[p - 3] == b[s + p - 3]);
    }
    assert(!is_continuation_byte(b[s]));
}

/// The line breaks of the text from a boundary on are those of the whole text there.
pub proof fn lemma_suffix_breaks(b: Seq<u8>, s: int, p: int)
    requires
        boundary(b, s),
        0 <= p <= b.len() - s,
    ensures
        breaks_before(b.skip(s), p) == breaks_before(b, s + p) - breaks_before(b, s),
    decreases p,
{
    if p > 0 {
        lemma_suffix_breaks(b, s, p - 1);
        lemma_suffix_break(b, s, p);
    }
}

/// The lines of the text from the beginning of a line on are the lines of the whole text
/// from that line on.
pub proof fn lemma_suffix_lines(b: Seq<u8>, line: int, l: int)
    requires
        valid_utf8(b),
        0 <= line < line_count(b),
        0 <= l <= line_count(b) - line,
    ensures
        line_count(b.skip(line_start(b, line))) == line_count(b) - line,
        line_start(b.skip(line_start(b, line)), l) == line_start(b, line + l) - line_start(b, line),
{
    let s = line_start(b, line);
    let t = b.skip(s);
    lemma_line_start(b, line);
    lemma_line_start_boundary(b, line);
    lemma_suffix_breaks(b, s, t.len() as int);
    assert(line_count(t) == line_count(b) - line);
    lemma_line_start(t, l);
    lemma_line_start(b, line + l);
    lemma_line_starts_grow(b, line, line + l);
    let p = line_start(t, l);
    let q = line_start(b, line + l) - s;
    if l < line_count(t) {
        lemma_suffix_breaks(b, s, p);
        lemma_suffix_breaks(b, s, q);
        if p < q {
            assert(breaks_before(b, s + p) < line + l);
        }
        if q < p {
            assert(breaks_before(t, q) < l);
        }
    }
}

/// A character begins right after a line break.
pub proof fn lemma_break_boundary(b: Seq<u8>, p: int)
    requires
        valid_utf8(b),
        break_ends_at(b, p),
    ensures
        boundary(b, p),
{
    if b[p - 1] < 0x80 {
        crate::bytes::lemma_boundary_at_ascii(b, p - 1);
    } else if p >= 2 && b[p - 2] == 0xc2 && b[p - 1] == 0x85 {
        lemma_after_scalar(b, p - 2);
    } else {
        lemma_after_scalar(b, p - 3);
    }
}

/// A character begins right after the one that begins at `i`.
proof fn lemma_after_scalar(b: Seq<u8>, i: int)
    requires
        valid_utf8(b),
        0 <= i < b.len(),
        !is_continuation_byte(b[i]),
    ensures
        boundary(b, i + length_of_first_scalar(b.subrange(i, b.len() as int))),
{
    lemma_boundary(b, i);
    valid_utf8_split(b, i);
    let rest = b.subrange(i, b.len() as int);
    assert(valid_first_scalar(rest));
    let next = pop_first_scalar(rest);
    assert(valid_utf8(next));
    if next.len() > 0 {
        assert(valid_first_scalar(next));
        assert(next[0] == b[i + length_of_first_scalar(rest)]);
    }
}

/// The text before a boundary is a number of whole characters.
pub proof fn lemma_char_index_at_boundary(text: Seq<char>, byte: int, index: int)
    requires
        boundary(encode_utf8(text), byte),
        is_char_index(text, byte, index),
    ensures
        byte_len(text.take(index)) == byte,
        encode_utf8(text.take(index)) == encode_utf8(text).take(byte),
        encode_utf8(text.skip(index)) == encode_utf8(text).skip(byte),
{
    let b = encode_utf8(text);
    let head = text.take(index);
    let tail = text.skip(index);
    assert(text =~= head + tail);
    lemma_bytes_concat(head, tail);
    encode_utf8_valid_utf8(text);
    encode_utf8_valid_utf8(tail);
    if index < text.len() {
        let c = text.subrange(index, index + 1);
        let after = text.skip(index + 1);
        assert(tail =~= c + after);
        assert(text.take(index + 1) =~= head + c);
        lemma_bytes_concat(c, after);
        lemma_bytes_concat(head, c);
        lemma_single_char(c);
        let k = byte - encode_utf8(head).len();
        if k > 0 {
            assert(0 < k < encode_utf8(c).len());
            assert(b[byte] == encode_utf8(c)[k]);
            assert(is_continuation_byte(b[byte]));
            assert(false);
        }
    } else {
        assert(head =~= text);
    }
    assert(b.take(byte) =~= encode_utf8(head));
    assert(b.skip(byte) =~= encode_utf8(tail));
}

/// The bytes of one character: a leading byte and continuation bytes.
proof fn lemma_single_char(c: Seq<char>)
    requires
        c.len() == 1,
    ensures
        encode_utf8(c).len() >= 1,
        forall|k: int| 1 <= k < encode_utf8(c).len() ==> is_continuation_byte(encode_utf8(c)[k]),
{
    encode_utf8_valid_utf8(c);
    encode_utf8_decode_utf8(c);
    let b = encode_utf8(c);
    if b.len() == 0 {
        assert(decode_utf8(b) =~= Seq::<char>::empty());
    } else {
        let rest = pop_first_scalar(b);
        assert(decode_utf8(b) =~= seq![decode_first_scalar(b) as char] + decode_utf8(rest));
        if rest.len() > 0 {
            assert(decode_utf8(rest).len() >= 1);
            assert(decode_utf8(b).len() >= 2);
        }
        assert(b.len() == length_of_first_scalar(b));
    }
}

} // verus!
