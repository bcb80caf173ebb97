//! The editing cursor.
//!
//! The cursor's source of truth is a **byte offset** into the document. It also
//! carries a sticky `goal_col` so that a run of vertical moves keeps its
//! intended column across short lines (standard editor behaviour). Horizontal
//! motion steps whole grapheme clusters; vertical motion is by display row and
//! is driven by the [`Layout`].

use ropey::Rope;
use vstd::prelude::*;
use vstd::utf8::*;

use crate::bytes::boundary;
use crate::layout::{lemma_line_end_boundary, total_of, Layout, LayoutView};
use crate::line_index::least;
use crate::markdown::tokenizer::{alphanumeric, content_end, content_length, lemma_content_end};
use crate::rope::{
    breaks_before, lemma_char_index_at_boundary, lemma_line_of, lemma_line_start_boundary,
    lemma_line_starts_grow, line_bytes, line_start, rope_byte_to_char, rope_byte_to_line,
    rope_bytes, rope_char, rope_len_bytes, rope_line, rope_line_to_byte, rope_text, rope_to_string,
};
use crate::strings::{byte_len, is_white_space, white_space};
use crate::text::{next_cluster, next_in, prev_cluster, prev_in};

verus! {

/// The cursor: a place in the document, and the column that vertical moves keep to.
#[derive(Clone, Copy, Debug, PartialEq, Eq, Structural)]
pub struct Cursor {
    /// Byte offset into the document.
    pub byte: usize,
    /// Preferred display column for vertical movement.
    pub goal_col: u16,
}

/// How word motions see a character.
#[derive(PartialEq, Eq, Clone, Copy, Debug, Structural)]
pub enum Class {
    Space,
    Word,
    Punct,
}

/// The class of a character.
pub open spec fn class_of(c: char) -> Class {
    if white_space(c) {
        Class::Space
    } else if alphanumeric(c) || c == '_' {
        Class::Word
    } else {
        Class::Punct
    }
}

/// The class of the character that begins at a byte; the end of the document is space.
pub open spec fn class_at(text: Seq<char>, byte: int) -> Class {
    if byte >= encode_utf8(text).len() {
        Class::Space
    } else {
        class_of(decode_utf8(encode_utf8(text).skip(byte))[0])
    }
}

/// The first place from `b` on, cluster by cluster, that is not of the class.
pub open spec fn skip_forward(text: Seq<char>, b: int, class: Class) -> int
    decreases encode_utf8(text).len() - b,
{
    let next = next_cluster(text, b);
    if b < encode_utf8(text).len() && class_at(text, b) == class && b < next
        <= encode_utf8(text).len() {
        skip_forward(text, next, class)
    } else {
        b
    }
}

/// The start of the next word.
pub open spec fn next_word(text: Seq<char>, b: int) -> int {
    let class = class_at(text, b);
    let past = if class == Class::Space {
        b
    } else {
        skip_forward(text, b, class)
    };
    skip_forward(text, past, Class::Space)
}

/// The last place from `b` back, cluster by cluster, that is not space.
pub open spec fn skip_space_back(text: Seq<char>, b: int) -> int
    decreases b,
{
    let prev = prev_cluster(text, b);
    if b > 0 && class_at(text, b) == Class::Space && 0 <= prev < b {
        skip_space_back(text, prev)
    } else {
        b
    }
}

/// The first place from `b` back, cluster by cluster, that has the class all the way.
pub open spec fn run_back(text: Seq<char>, b: int, class: Class) -> int
    decreases b,
{
    let prev = prev_cluster(text, b);
    if b > 0 && class_at(text, prev) == class && 0 <= prev < b {
        run_back(text, prev, class)
    } else {
        b
    }
}

/// The start of the previous word.
pub open spec fn prev_word(text: Seq<char>, byte: int) -> int {
    if byte == 0 {
        0
    } else {
        let b = skip_space_back(text, prev_cluster(text, byte));
        run_back(text, b, class_at(text, b))
    }
}

/// The end of the line that a byte is on, before its line ending.
pub open spec fn line_end(b: Seq<u8>, byte: int) -> int {
    let line = breaks_before(b, byte);
    line_start(b, line) + content_end(line_bytes(b, line))
}

/// A byte `rows` display rows further, in the goal column.
pub open spec fn row_away(v: LayoutView, byte: int, goal: int, rows: int) -> int {
    let target = v.position(byte).0 + rows;
    v.byte_at(
        if target < 0 {
            0
        } else {
            least(target, total_of(v.counts) - 1)
        },
        goal,
    )
}

/// Classify the character at byte offset `byte` for word motions.
fn char_class(rope: &Rope, byte: usize) -> (class: Class)
    requires
        byte < rope_bytes(*rope).len() ==> boundary(rope_bytes(*rope), byte as int),
    ensures
        class == class_at(rope_text(*rope), byte as int),
{
    if byte >= rope_len_bytes(rope) {
        return Class::Space;
    }
    let ghost text = rope_text(*rope);
    let index: usize = rope_byte_to_char(rope, byte);
    proof {
        lemma_char_index_at_boundary(text, byte as int, index as int);
        encode_utf8_decode_utf8(text.skip(index as int));
        if index == text.len() {
            assert(text.take(index as int) =~= text);
        }
    }
    let c = rope_char(rope, index);
    if is_white_space(c) {
        Class::Space
    } else if c.is_alphanumeric() || c == '_' {
        Class::Word
    } else {
        Class::Punct
    }
}

impl Cursor {
    /// At the beginning of the document.
    pub fn new() -> (cursor: Self)
        ensures
            cursor == (Cursor { byte: 0, goal_col: 0 }),
    {
        Cursor { byte: 0, goal_col: 0 }
    }

    /// Move one grapheme cluster left.
    pub fn left(&mut self, rope: &Rope)
        requires
            boundary(rope_bytes(*rope), old(self).byte as int),
        ensures
            final(self).byte == prev_cluster(rope_text(*rope), old(self).byte as int),
            final(self).goal_col == old(self).goal_col,
            boundary(rope_bytes(*rope), final(self).byte as int),
    {
        self.byte = crate::text::prev_grapheme(rope, self.byte);
    }

    /// Move one grapheme cluster right.
    pub fn right(&mut self, rope: &Rope)
        requires
            boundary(rope_bytes(*rope), old(self).byte as int),
        ensures
            final(self).byte == next_cluster(rope_text(*rope), old(self).byte as int),
            final(self).goal_col == old(self).goal_col,
            boundary(rope_bytes(*rope), final(self).byte as int),
    {
        self.byte = crate::text::next_grapheme(rope, self.byte);
    }

    /// Move up one display row, keeping the goal column.
    pub fn up(&mut self, layout: &Layout)
        requires
            layout.wf(),
        ensures
            final(self).goal_col == old(self).goal_col,
            boundary(layout@.bytes(), old(self).byte as int) ==> boundary(
                layout@.bytes(),
                final(self).byte as int,
            ),
            final(self).byte == (if layout@.position(old(self).byte as int).0 > 0 {
                layout@.byte_at(
                    layout@.position(old(self).byte as int).0 - 1,
                    old(self).goal_col as int,
                )
            } else {
                old(self).byte as int
            }),
    {
        let (row, _col) = layout.byte_to_pos(self.byte);
        if row > 0 {
            self.byte = layout.pos_to_byte(row - 1, self.goal_col);
        }
    }

    /// Move down one display row, keeping the goal column.
    pub fn down(&mut self, layout: &Layout)
        requires
            layout.wf(),
        ensures
            final(self).goal_col == old(self).goal_col,
            boundary(layout@.bytes(), old(self).byte as int) ==> boundary(
                layout@.bytes(),
                final(self).byte as int,
            ),
            final(self).byte == (if layout@.position(old(self).byte as int).0 + 1 < total_of(
                layout@.counts,
            ) {
                layout@.byte_at(
                    layout@.position(old(self).byte as int).0 + 1,
                    old(self).goal_col as int,
                )
            } else {
                old(self).byte as int
            }),
    {
        let (row, _col) = layout.byte_to_pos(self.byte);
        let len: usize = layout.len();
        if row < len - 1 {
            self.byte = layout.pos_to_byte(row + 1, self.goal_col);
        }
    }

    /// Jump `rows` display rows up or down, keeping the goal column.
    pub fn page(&mut self, layout: &Layout, rows: usize, down: bool)
        requires
            layout.wf(),
        ensures
            final(self).goal_col == old(self).goal_col,
            boundary(layout@.bytes(), final(self).byte as int),
            final(self).byte == row_away(
                layout@,
                old(self).byte as int,
                old(self).goal_col as int,
                if down {
                    rows as int
                } else {
                    -(rows as int)
                },
            ),
    {
        let (row, _col) = layout.byte_to_pos(self.byte);
        let len: usize = layout.len();
        let target: usize = if down {
            let far: usize = row.saturating_add(rows);
            if far < len - 1 {
                far
            } else {
                len - 1
            }
        } else if row >= rows {
            if row - rows < len - 1 {
                row - rows
            } else {
                len - 1
            }
        } else {
            0
        };
        self.byte = layout.pos_to_byte(target, self.goal_col);
    }

    /// Move to the start of the current logical line.
    pub fn home(&mut self, rope: &Rope)
        requires
            old(self).byte <= rope_bytes(*rope).len(),
        ensures
            final(self).byte == line_start(
                rope_bytes(*rope),
                breaks_before(rope_bytes(*rope), old(self).byte as int),
            ),
            final(self).goal_col == old(self).goal_col,
            final(self).byte <= old(self).byte,
            boundary(rope_bytes(*rope), final(self).byte as int),
    {
        let ghost b = rope_bytes(*rope);
        let line: usize = rope_byte_to_line(rope, self.byte);
        proof {
            encode_utf8_valid_utf8(rope_text(*rope));
            lemma_line_of(b, self.byte as int);
            lemma_line_start_boundary(b, line as int);
        }
        self.byte = rope_line_to_byte(rope, line);
    }

    /// Move to the end of the current logical line (before the newline).
    pub fn end(&mut self, rope: &Rope)
        requires
            old(self).byte <= rope_bytes(*rope).len(),
        ensures
            final(self).byte == line_end(rope_bytes(*rope), old(self).byte as int),
            final(self).goal_col == old(self).goal_col,
            boundary(rope_bytes(*rope), final(self).byte as int),
    {
        let ghost b = rope_bytes(*rope);
        let line: usize = rope_byte_to_line(rope, self.byte);
        let len: usize = rope_len_bytes(rope);
        proof {
            encode_utf8_valid_utf8(rope_text(*rope));
            lemma_line_of(b, self.byte as int);
            lemma_line_starts_grow(b, line as int, line + 1);
            lemma_content_end(line_bytes(b, line as int));
            lemma_line_end_boundary(b, line as int);
        }
        let text = rope_line(rope, line);
        let start: usize = rope_line_to_byte(rope, line);
        let keep: usize = content_length(text.as_str().as_bytes());
        self.byte = start + keep;
    }

    /// Move to the start of the next word (Vim `w`).
    pub fn word_forward(&mut self, rope: &Rope)
        requires
            boundary(rope_bytes(*rope), old(self).byte as int),
        ensures
            final(self).byte == next_word(rope_text(*rope), old(self).byte as int),
            final(self).goal_col == old(self).goal_col,
            boundary(rope_bytes(*rope), final(self).byte as int),
    {
        let text = rope_to_string(rope);
        let class = char_class(rope, self.byte);
        let mut b: usize = self.byte;
        if class != Class::Space {
            b = forward_over(rope, text.as_str(), b, class);
        }
        self.byte = forward_over(rope, text.as_str(), b, Class::Space);
    }

    /// Move to the start of the previous word (Vim `b`).
    pub fn word_back(&mut self, rope: &Rope)
        requires
            boundary(rope_bytes(*rope), old(self).byte as int),
        ensures
            final(self).byte == prev_word(rope_text(*rope), old(self).byte as int),
            final(self).goal_col == old(self).goal_col,
            boundary(rope_bytes(*rope), final(self).byte as int),
    {
        if self.byte == 0 {
            return;
        }
        let text = rope_to_string(rope);
        let ghost t = rope_text(*rope);
        let mut b: usize = prev_in(text.as_str(), self.byte);
        let ghost goal = skip_space_back(t, b as int);
        while b > 0 && char_class(rope, b) == Class::Space
            invariant
                t == rope_text(*rope),
                text@ == t,
                boundary(rope_bytes(*rope), b as int),
                skip_space_back(t, b as int) == goal,
            decreases b,
        {
            b = prev_in(text.as_str(), b);
        }
        let class = char_class(rope, b);
        let ghost start = run_back(t, b as int, class);
        let mut stop = false;
        while b > 0 && !stop
            invariant
                t == rope_text(*rope),
                text@ == t,
                boundary(rope_bytes(*rope), b as int),
                !stop ==> run_back(t, b as int, class) == start,
                stop ==> b == start,
            decreases
                b,
                if stop {
                    0int
                } else {
                    1int
                },
        {
            let prev: usize = prev_in(text.as_str(), b);
            if char_class(rope, prev) == class {
                b = prev;
            } else {
                stop = true;
            }
        }
        self.byte = b;
    }

    /// Move to the start of the document.
    pub fn doc_start(&mut self)
        ensures
            *final(self) == (Cursor { byte: 0, ..*old(self) }),
    {
        self.byte = 0;
    }

    /// Move to the end of the document.
    pub fn doc_end(&mut self, rope: &Rope)
        ensures
            final(self).byte == rope_bytes(*rope).len(),
            final(self).goal_col == old(self).goal_col,
    {
        self.byte = rope_len_bytes(rope);
    }

    /// Refresh the goal column from the current position. Call after any
    /// horizontal move or edit (but not between vertical moves).
    pub fn sync_goal(&mut self, layout: &Layout)
        requires
            layout.wf(),
        ensures
            final(self).byte == old(self).byte,
            final(self).goal_col == layout@.position(old(self).byte as int).1,
    {
        self.goal_col = layout.byte_to_pos(self.byte).1;
    }
}

/// Step forward, cluster by cluster, over characters of a class.
fn forward_over(rope: &Rope, text: &str, from: usize, class: Class) -> (b: usize)
    requires
        text@ == rope_text(*rope),
        boundary(rope_bytes(*rope), from as int),
    ensures
        b == skip_forward(rope_text(*rope), from as int, class),
        boundary(rope_bytes(*rope), b as int),
{
    let ghost t = rope_text(*rope);
    let ghost goal = skip_forward(t, from as int, class);
    let len: usize = rope_len_bytes(rope);
    let mut b: usize = from;
    while b < len && char_class(rope, b) == class
        invariant
            t == rope_text(*rope),
            text@ == t,
            len == rope_bytes(*rope).len(),
            boundary(rope_bytes(*rope), b as int),
            skip_forward(t, b as int, class) == goal,
        decreases len - b,
    {
        b = next_in(text, b);
    }
    b
}

/// Where some steps by a cluster lead.
pub open spec fn hops(text: Seq<char>, b: int, k: nat) -> int
    decreases k,
{
    if k == 0 {
        b
    } else {
        hops(text, next_cluster(text, b), (k - 1) as nat)
    }
}

/// Whether the clusters of a text lead on from every place in it, and not past its end.
pub open spec fn leads_on(text: Seq<char>) -> bool {
    forall|p: int|
        0 <= p < byte_len(text) ==> p < #[trigger] next_cluster(text, p) <= byte_len(text)
}

/// How many clusters in a row are of a class, from a place on.
proof fn lemma_skip_forward(text: Seq<char>, b: int, class: Class) -> (k: nat)
    requires
        leads_on(text),
        0 <= b <= byte_len(text),
    ensures
        skip_forward(text, b, class) == hops(text, b, k),
        b <= hops(text, b, k) <= byte_len(text),
        forall|i: nat|
            i < k ==> 0 <= hops(text, b, i) < byte_len(text) && class_at(
                text,
                #[trigger] hops(text, b, i),
            ) == class,
        hops(text, b, k) < byte_len(text) ==> class_at(text, hops(text, b, k)) != class,
    decreases byte_len(text) - b,
{
    let next = next_cluster(text, b);
    if b < byte_len(text) && class_at(text, b) == class {
        assert(b < next <= byte_len(text));
        let k = lemma_skip_forward(text, next, class);
        let n = (k + 1) as nat;
        assert(hops(text, b, n) == hops(text, next, k));
        assert forall|i: nat| i < n implies 0 <= hops(text, b, i) < byte_len(text) && class_at(
            text,
            #[trigger] hops(text, b, i),
        ) == class by {
            if i > 0 {
                assert(hops(text, b, i) == hops(text, next, (i - 1) as nat));
            }
        }
        n
    } else {
        assert(hops(text, b, 0) == b);
        0
    }
}

/// The next word begins behind the run of characters of one class at the place and the space
/// behind that: what is skipped is first of the class of the place, and then space, and what
/// is there is no space, unless the text ends.
pub proof fn lemma_the_next_word(text: Seq<char>, b: int) -> (r: (nat, nat))
    requires
        leads_on(text),
        0 <= b < byte_len(text),
    ensures
        ({
            let (j, k) = r;
            let n = next_word(text, b);
            let past = hops(text, b, j);
            &&& n == hops(text, past, k)
            &&& b < n <= byte_len(text)
            &&& n < byte_len(text) ==> class_at(text, n) != Class::Space
            &&& forall|i: nat|
                i < j ==> class_at(text, #[trigger] hops(text, b, i)) == class_at(text, b)
            &&& forall|i: nat| i < k ==> class_at(text, #[trigger] hops(text, past, i)) == Class::Space
            &&& class_at(text, b) == Class::Space ==> j == 0
            &&& class_at(text, b) != Class::Space && past < byte_len(text) ==> class_at(text, past)
                != class_at(text, b)
        }),
{
    let class = class_at(text, b);
    assert(b < next_cluster(text, b) <= byte_len(text));
    if class == Class::Space {
        let k = lemma_skip_forward(text, b, Class::Space);
        assert(hops(text, b, 0) == b);
        if k == 0 {
            assert(class_at(text, b) != Class::Space);
        }
        assert(hops(text, b, k) == hops(text, next_cluster(text, b), (k - 1) as nat));
        lemma_hops_grow(text, next_cluster(text, b), (k - 1) as nat);
        (0, k)
    } else {
        let j = lemma_skip_forward(text, b, class);
        let past = hops(text, b, j);
        if j == 0 {
            assert(class_at(text, b) != class);
        }
        assert(hops(text, b, j) == hops(text, next_cluster(text, b), (j - 1) as nat));
        lemma_hops_grow(text, next_cluster(text, b), (j - 1) as nat);
        let k = lemma_skip_forward(text, past, Class::Space);
        (j, k)
    }
}

proof fn lemma_hops_grow(text: Seq<char>, b: int, k: nat)
    requires
        leads_on(text),
        0 <= b <= byte_len(text),
    ensures
        b <= hops(text, b, k) <= byte_len(text),
    decreases k,
{
    if k > 0 {
        if b < byte_len(text) {
            assert(b < next_cluster(text, b) <= byte_len(text));
        }
        lemma_hops_grow(text, next_cluster(text, b), (k - 1) as nat);
    }
}

/// Where some steps back by a cluster lead.
pub open spec fn hops_back(text: Seq<char>, b: int, k: nat) -> int
    decreases k,
{
    if k == 0 {
        b
    } else {
        hops_back(text, prev_cluster(text, b), (k - 1) as nat)
    }
}

/// Whether the clusters of a text lead back from every place in it but its beginning.
pub open spec fn leads_back(text: Seq<char>) -> bool {
    forall|p: int| 0 < p <= byte_len(text) ==> 0 <= #[trigger] prev_cluster(text, p) < p
}

proof fn lemma_skip_space_back(text: Seq<char>, b: int) -> (k: nat)
    requires
        leads_back(text),
        0 <= b <= byte_len(text),
    ensures
        skip_space_back(text, b) == hops_back(text, b, k),
        0 <= hops_back(text, b, k) <= b,
        forall|i: nat|
            i < k ==> class_at(text, #[trigger] hops_back(text, b, i)) == Class::Space,
        hops_back(text, b, k) > 0 ==> class_at(text, hops_back(text, b, k)) != Class::Space,
    decreases b,
{
    let prev = prev_cluster(text, b);
    if b > 0 && class_at(text, b) == Class::Space {
        assert(0 <= prev < b);
        let k = lemma_skip_space_back(text, prev);
        let n = (k + 1) as nat;
        assert(hops_back(text, b, n) == hops_back(text, prev, k));
        assert forall|i: nat| i < n implies class_at(text, #[trigger] hops_back(text, b, i))
            == Class::Space by {
            if i > 0 {
                assert(hops_back(text, b, i) == hops_back(text, prev, (i - 1) as nat));
            }
        }
        n
    } else {
        assert(hops_back(text, b, 0) == b);
        0
    }
}

proof fn lemma_run_back(text: Seq<char>, b: int, class: Class) -> (k: nat)
    requires
        leads_back(text),
        0 <= b <= byte_len(text),
        class_at(text, b) == class,
    ensures
        run_back(text, b, class) == hops_back(text, b, k),
        0 <= hops_back(text, b, k) <= b,
        forall|i: nat| i <= k ==> class_at(text, #[trigger] hops_back(text, b, i)) == class,
        hops_back(text, b, k) > 0 ==> class_at(text, prev_cluster(text, hops_back(text, b, k)))
            != class,
    decreases b,
{
    let prev = prev_cluster(text, b);
    if b > 0 {
        assert(0 <= prev < b);
    }
    if b > 0 && class_at(text, prev) == class {
        let k = lemma_run_back(text, prev, class);
        let n = (k + 1) as nat;
        assert(hops_back(text, b, n) == hops_back(text, prev, k));
        assert forall|i: nat| i <= n implies class_at(text, #[trigger] hops_back(text, b, i))
            == class by {
            if i > 0 {
                assert(hops_back(text, b, i) == hops_back(text, prev, (i - 1) as nat));
            }
        }
        n
    } else {
        assert(hops_back(text, b, 0) == b);
        assert forall|i: nat| i <= 0 implies class_at(text, #[trigger] hops_back(text, b, i))
            == class by {}
        0
    }
}

/// The previous word begins behind a place before which there is none of its class: what is
/// skipped from the cluster before the place back is first space, and then of one class that
/// is no space, unless the text begins with space.
pub proof fn lemma_the_previous_word(text: Seq<char>, b: int) -> (r: (nat, nat))
    requires
        leads_back(text),
        0 < b <= byte_len(text),
    ensures
        ({
            let (j, k) = r;
            let from = prev_cluster(text, b);
            let end = hops_back(text, from, j);
            let n = prev_word(text, b);
            &&& n == hops_back(text, end, k)
            &&& 0 <= n < b
            &&& forall|i: nat|
                i < j ==> class_at(text, #[trigger] hops_back(text, from, i)) == Class::Space
            &&& end > 0 ==> class_at(text, end) != Class::Space
            &&& forall|i: nat|
                i <= k ==> class_at(text, #[trigger] hops_back(text, end, i)) == class_at(text, end)
            &&& n > 0 ==> class_at(text, prev_cluster(text, n)) != class_at(text, n)
        }),
{
    let from = prev_cluster(text, b);
    assert(0 <= from < b);
    let j = lemma_skip_space_back(text, from);
    let end = hops_back(text, from, j);
    let k = lemma_run_back(text, end, class_at(text, end));
    assert(class_at(text, hops_back(text, end, k)) == class_at(text, end));
    (j, k)
}

} // verus!
