//! Editing one line of text, as prompts do, and the keys that do it.

use vstd::prelude::*;
use vstd::utf8::*;

use crate::bytes::{boundary, lemma_boundary_ends, slice, text_between};
use crate::strings::{byte_len, byte_length, lemma_bytes_concat};
use crate::text::{cluster_starts, clusters};

verus! {

/// A key of the keyboard.
#[derive(Clone, Copy, Debug, PartialEq, Eq, Structural)]
pub enum KeyCode {
    Char(char),
    Enter,
    Tab,
    BackTab,
    Backspace,
    Delete,
    Esc,
    Left,
    Right,
    Up,
    Down,
    Home,
    End,
    PageUp,
    PageDown,
    F(u8),
    Other,
}

/// A key press with its modifiers.
#[derive(Clone, Copy, Debug, PartialEq, Eq, Structural)]
pub struct Key {
    pub code: KeyCode,
    pub control: bool,
    pub shift: bool,
    pub alt: bool,
    pub command: bool,
}

impl Key {
    /// Whether the modifiers count as "Ctrl" for shortcuts. Cmd on macOS is accepted as an
    /// alias, so that Cmd+S etc. work where the terminal passes Cmd through; plain Ctrl
    /// works everywhere.
    pub open spec fn ctrl(self) -> bool {
        self.control || self.command
    }

    /// Whether the modifiers count as "Ctrl" for shortcuts.
    pub fn is_ctrl(self) -> (yes: bool)
        ensures
            yes == self.ctrl(),
    {
        self.control || self.command
    }

    /// A key without modifiers.
    pub fn plain(code: KeyCode) -> (key: Key)
        ensures
            key == (Key { code, control: false, shift: false, alt: false, command: false }),
    {
        Key { code, control: false, shift: false, alt: false, command: false }
    }
}

/// The beginning of the cluster before a place in a line.
pub open spec fn cluster_back(s: Seq<char>, at: int) -> int {
    let c = clusters(text_between(encode_utf8(s), 0, at));
    if c.len() == 0 {
        0
    } else {
        c.last() as int
    }
}

/// The beginning of the cluster after the one at a place in a line.
pub open spec fn cluster_on(s: Seq<char>, at: int) -> int {
    let b = encode_utf8(s);
    let c = clusters(text_between(b, at, b.len() as int));
    if c.len() < 2 {
        b.len() as int
    } else {
        at + c[1]
    }
}

/// A line without the bytes `[from, to)`.
pub open spec fn cut_out(s: Seq<char>, from: int, to: int) -> Seq<char> {
    let b = encode_utf8(s);
    text_between(b, 0, from) + text_between(b, to, b.len() as int)
}

/// A line with a character put in at a place.
pub open spec fn put_in(s: Seq<char>, at: int, c: char) -> Seq<char> {
    let b = encode_utf8(s);
    text_between(b, 0, at).push(c) + text_between(b, at, b.len() as int)
}

/// The line and the place in it after a key, where the key edits.
pub open spec fn line_edited(key: Key, s: Seq<char>, at: int) -> Option<(Seq<char>, int)> {
    match key.code {
        KeyCode::Left => Some((s, cluster_back(s, at))),
        KeyCode::Right => Some((s, cluster_on(s, at))),
        KeyCode::Home => Some((s, 0)),
        KeyCode::End => Some((s, byte_len(s) as int)),
        KeyCode::Backspace => if at > 0 {
            Some((cut_out(s, cluster_back(s, at), at), cluster_back(s, at)))
        } else {
            None
        },
        KeyCode::Delete => if at < byte_len(s) {
            Some((cut_out(s, at, cluster_on(s, at)), at))
        } else {
            None
        },
        KeyCode::Char(c) => if !key.ctrl() && byte_len(s) + 4 <= usize::MAX {
            Some((put_in(s, at, c), at + byte_len(seq![c])))
        } else {
            None
        },
        _ => None,
    }
}

fn prev_grapheme(s: &str, at: usize) -> (prev: usize)
    requires
        boundary(encode_utf8(s@), at as int),
    ensures
        prev == cluster_back(s@, at as int),
        prev <= at,
        boundary(encode_utf8(s@), prev as int),
{
    let ghost b = encode_utf8(s@);
    proof {
        encode_utf8_valid_utf8(s@);
        lemma_boundary_ends(b);
    }
    let head = slice(s, 0, at);
    let starts = cluster_starts(head);
    if starts.len() == 0 {
        return 0;
    }
    let last: usize = starts[starts.len() - 1];
    proof {
        assert(encode_utf8(head@)[last as int] == b[last as int]);
    }
    last
}

fn next_grapheme(s: &str, at: usize) -> (next: usize)
    requires
        boundary(encode_utf8(s@), at as int),
    ensures
        next == cluster_on(s@, at as int),
        at <= next <= byte_len(s@),
        boundary(encode_utf8(s@), next as int),
{
    let ghost b = encode_utf8(s@);
    let len: usize = byte_length(s);
    proof {
        encode_utf8_valid_utf8(s@);
        lemma_boundary_ends(b);
    }
    let tail = slice(s, at, len);
    let starts = cluster_starts(tail);
    if starts.len() < 2 {
        return len;
    }
    proof {
        assert(starts@[1] < byte_len(tail@));
        assert(encode_utf8(tail@)[starts@[1] as int] == b[at + starts@[1]]);
    }
    at + starts[1]
}

proof fn lemma_seam(a: Seq<char>, z: Seq<char>)
    ensures
        boundary(encode_utf8(a + z), byte_len(a) as int),
{
    lemma_bytes_concat(a, z);
    encode_utf8_valid_utf8(z);
    lemma_boundary_ends(encode_utf8(z));
    let b = encode_utf8(a + z);
    let k = byte_len(a) as int;
    if k < b.len() {
        assert(b[k] == encode_utf8(z)[0]);
    }
}

/// Shared single-line text editing for prompts (cursor motion, deletion, and
/// character insertion). Returns whether the key was consumed.
pub fn edit_line(key: Key, input: &mut String, cursor: &mut usize) -> (used: bool)
    requires
        boundary(encode_utf8(old(input)@), *old(cursor) as int),
    ensures
        boundary(encode_utf8(final(input)@), *final(cursor) as int),
        match line_edited(key, old(input)@, *old(cursor) as int) {
            Some((s, at)) => used && final(input)@ == s && *final(cursor) == at,
            None => !used && final(input)@ == old(input)@ && *final(cursor) == *old(cursor),
        },
{
    let at: usize = *cursor;
    let len: usize = byte_length(input.as_str());
    let ghost s = input@;
    let ghost b = encode_utf8(s);
    proof {
        encode_utf8_valid_utf8(s);
        lemma_boundary_ends(b);
    }
    match key.code {
        KeyCode::Left => {
            *cursor = prev_grapheme(input.as_str(), at);
            true
        },
        KeyCode::Right => {
            *cursor = next_grapheme(input.as_str(), at);
            true
        },
        KeyCode::Home => {
            *cursor = 0;
            true
        },
        KeyCode::End => {
            *cursor = len;
            true
        },
        KeyCode::Backspace => {
            if at == 0 {
                return false;
            }
            let prev: usize = prev_grapheme(input.as_str(), at);
            let mut out = slice(input.as_str(), 0, prev).to_owned();
            let ghost head = out@;
            let tail = slice(input.as_str(), at, len).to_owned();
            out.append(tail.as_str());
            proof {
                lemma_seam(head, tail@);
                assert(b.subrange(0, prev as int).len() == prev);
            }
            *input = out;
            *cursor = prev;
            true
        },
        KeyCode::Delete => {
            if at >= len {
                return false;
            }
            let next: usize = next_grapheme(input.as_str(), at);
            let mut out = slice(input.as_str(), 0, at).to_owned();
            let ghost head = out@;
            let tail = slice(input.as_str(), next, len).to_owned();
            out.append(tail.as_str());
            proof {
                lemma_seam(head, tail@);
                assert(b.subrange(0, at as int).len() == at);
            }
            *input = out;
            true
        },
        KeyCode::Char(c) => {
            if key.is_ctrl() || len > usize::MAX - 4 {
                return false;
            }
            let mut out = slice(input.as_str(), 0, at).to_owned();
            let ghost head = out@;
            out.push(c);
            let tail = slice(input.as_str(), at, len).to_owned();
            let mut one = String::new();
            one.push(c);
            proof {
                assert(one@ =~= seq![c]);
                assert(head.push(c) =~= head + seq![c]);
                lemma_bytes_concat(head, seq![c]);
                assert(b.subrange(0, at as int).len() == at);
                lemma_one_char(c);
            }
            let width: usize = byte_length(one.as_str());
            out.append(tail.as_str());
            proof {
                lemma_seam(head.push(c), tail@);
            }
            *input = out;
            *cursor = at + width;
            true
        },
        _ => false,
    }
}

/// One character takes at most four bytes.
pub proof fn lemma_one_char(c: char)
    ensures
        byte_len(seq![c]) <= 4,
{
    let s = seq![c];
    assert(s.drop_first() =~= Seq::<char>::empty());
    assert(encode_utf8(s.drop_first()) =~= Seq::<u8>::empty());
    assert(encode_utf8(s) =~= encode_scalar(c as u32) + encode_utf8(s.drop_first()));
}

/// A character that is typed is put in where the cursor is, which is then behind it.
pub proof fn lemma_a_character_is_put_in(key: Key, s: Seq<char>, at: int, c: char)
    requires
        boundary(encode_utf8(s), at),
        key.code == KeyCode::Char(c),
        !key.control,
        !key.command,
        byte_len(s) + 4 <= usize::MAX,
    ensures
        ({
            let b = encode_utf8(s);
            let (t, place) = line_edited(key, s, at)->0;
            &&& line_edited(key, s, at) is Some
            &&& encode_utf8(t) == b.take(at) + encode_utf8(seq![c]) + b.skip(at)
            &&& place == at + byte_len(seq![c])
        }),
{
    let b = encode_utf8(s);
    encode_utf8_valid_utf8(s);
    lemma_boundary_ends(b);
    let head = text_between(b, 0, at);
    let tail = text_between(b, at, b.len() as int);
    lemma_between_bytes(s, 0, at);
    lemma_between_bytes(s, at, b.len() as int);
    assert(head.push(c) =~= head + seq![c]);
    lemma_bytes_concat(head, seq![c]);
    lemma_bytes_concat(head.push(c), tail);
    assert(b.subrange(0, at) =~= b.take(at));
    assert(b.subrange(at, b.len() as int) =~= b.skip(at));
}

proof fn lemma_between_bytes(s: Seq<char>, from: int, to: int)
    requires
        boundary(encode_utf8(s), from),
        boundary(encode_utf8(s), to),
        from <= to,
    ensures
        encode_utf8(text_between(encode_utf8(s), from, to)) == encode_utf8(s).subrange(from, to),
{
    let b = encode_utf8(s);
    encode_utf8_valid_utf8(s);
    crate::bytes::lemma_valid_between(b, from, to);
    decode_utf8_encode_utf8(b.subrange(from, to));
}

/// Backspace takes out what is from the beginning of the last cluster before the cursor up
/// to the cursor, and Delete the cluster behind it; the rest of the line stays. At the ends
/// of the line there is nothing to take out.
pub proof fn lemma_clusters_are_taken_out(key: Key, s: Seq<char>, at: int)
    requires
        boundary(encode_utf8(s), at),
    ensures
        ({
            let b = encode_utf8(s);
            let back = clusters(text_between(b, 0, at));
            let on = clusters(text_between(b, at, b.len() as int));
            let r = line_edited(key, s, at);
            &&& key.code == KeyCode::Backspace && at == 0 ==> r is None
            &&& key.code == KeyCode::Backspace && at > 0 && back.len() > 0 && boundary(
                b,
                back.last() as int,
            ) && back.last() <= at ==> r is Some && encode_utf8((r->0).0) == b.take(
                back.last() as int,
            ) + b.skip(at) && (r->0).1 == back.last()
            &&& key.code == KeyCode::Delete && at == b.len() ==> r is None
            &&& key.code == KeyCode::Delete && at < b.len() && on.len() > 1 && boundary(
                b,
                at + on[1],
            ) ==> r is Some && encode_utf8((r->0).0) == b.take(at) + b.skip(at + on[1]) && (r->0).1
                == at
            &&& key.code == KeyCode::Delete && at < b.len() && on.len() == 1 ==> r is Some
                && encode_utf8((r->0).0) == b.take(at) && (r->0).1 == at
        }),
{
    let b = encode_utf8(s);
    encode_utf8_valid_utf8(s);
    lemma_boundary_ends(b);
    let back = clusters(text_between(b, 0, at));
    let on = clusters(text_between(b, at, b.len() as int));
    let n = b.len() as int;
    if key.code == KeyCode::Backspace && at > 0 && back.len() > 0 && boundary(b, back.last() as int)
        && back.last() <= at {
        lemma_cut_out_bytes(s, back.last() as int, at);
    }
    if key.code == KeyCode::Delete && at < n && on.len() > 1 && boundary(b, at + on[1]) {
        lemma_cut_out_bytes(s, at, at + on[1]);
    }
    if key.code == KeyCode::Delete && at < n && on.len() == 1 {
        lemma_cut_out_bytes(s, at, n);
        assert(b.take(at) + b.skip(n) =~= b.take(at));
    }
}

proof fn lemma_cut_out_bytes(s: Seq<char>, from: int, to: int)
    requires
        boundary(encode_utf8(s), from),
        boundary(encode_utf8(s), to),
    ensures
        encode_utf8(cut_out(s, from, to)) == encode_utf8(s).take(from) + encode_utf8(s).skip(to),
{
    let b = encode_utf8(s);
    encode_utf8_valid_utf8(s);
    lemma_boundary_ends(b);
    lemma_between_bytes(s, 0, from);
    lemma_between_bytes(s, to, b.len() as int);
    lemma_bytes_concat(text_between(b, 0, from), text_between(b, to, b.len() as int));
    assert(b.subrange(0, from) =~= b.take(from));
    assert(b.subrange(to, b.len() as int) =~= b.skip(to));
}

/// Home leads to the beginning of the line and End to its end, and the arrows by a cluster;
/// none of them changes the line.
pub proof fn lemma_line_motions(key: Key, s: Seq<char>, at: int)
    ensures
        ({
            let b = encode_utf8(s);
            let back = clusters(text_between(b, 0, at));
            let on = clusters(text_between(b, at, b.len() as int));
            let r = line_edited(key, s, at);
            &&& key.code == KeyCode::Home ==> r == Some((s, 0int))
            &&& key.code == KeyCode::End ==> r == Some((s, b.len() as int))
            &&& key.code == KeyCode::Left && back.len() > 0 ==> r == Some((s, back.last() as int))
            &&& key.code == KeyCode::Right && on.len() > 1 ==> r == Some((s, at + on[1]))
            &&& key.code == KeyCode::Right && on.len() <= 1 ==> r == Some((s, b.len() as int))
        }),
{
}

} // verus!
