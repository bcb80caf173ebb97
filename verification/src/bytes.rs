//! Text as UTF-8 bytes: where characters begin, and slices between those places.

use vstd::prelude::*;
use vstd::utf8::*;

verus! {

/// Whether a character begins, or the text ends, at byte `i`.
pub open spec fn boundary(b: Seq<u8>, i: int) -> bool {
    0 <= i <= b.len() && (i == b.len() || !is_continuation_byte(b[i]))
}

/// [`boundary`] says where a slice of valid text can be cut.
pub proof fn lemma_boundary(b: Seq<u8>, i: int)
    requires
        valid_utf8(b),
    ensures
        boundary(b, i) <==> (0 <= i && is_char_boundary(b, i)),
{
    is_char_boundary_start_end_of_seq(b);
    if 0 <= i < b.len() {
        is_char_boundary_iff_not_is_continuation_byte(b, i);
    }
}

/// A character begins at an ASCII byte, and another right after it.
pub proof fn lemma_boundary_at_ascii(b: Seq<u8>, i: int)
    requires
        valid_utf8(b),
        0 <= i < b.len(),
        b[i] < 0x80,
    ensures
        boundary(b, i),
        boundary(b, i + 1),
{
    lemma_boundary(b, i);
    valid_utf8_split(b, i);
    let rest = b.subrange(i, b.len() as int);
    assert(rest[0] == b[i]);
    assert(valid_utf8(rest));
    let next = pop_first_scalar(rest);
    assert(valid_utf8(next));
    if i + 1 < b.len() {
        assert(next.len() > 0);
        assert(next[0] == b[i + 1]);
        assert(valid_first_scalar(next));
    }
}

/// Both ends of a text are boundaries.
pub proof fn lemma_boundary_ends(b: Seq<u8>)
    requires
        valid_utf8(b),
    ensures
        boundary(b, 0),
        boundary(b, b.len() as int),
{
    if b.len() > 0 {
        assert(valid_first_scalar(b));
    }
}

/// The text between two boundaries is valid.
pub proof fn lemma_valid_between(b: Seq<u8>, from: int, to: int)
    requires
        valid_utf8(b),
        boundary(b, from),
        boundary(b, to),
        from <= to,
    ensures
        valid_utf8(b.subrange(from, to)),
{
    lemma_boundary(b, to);
    valid_utf8_split(b, to);
    let head = b.subrange(0, to);
    assert(boundary(head, from));
    lemma_boundary(head, from);
    valid_utf8_split(head, from);
    assert(head.subrange(from, head.len() as int) =~= b.subrange(from, to));
}

/// The characters of the text between two boundaries.
pub open spec fn text_between(b: Seq<u8>, from: int, to: int) -> Seq<char> {
    decode_utf8(b.subrange(from, to))
}

/// The part of `s` between two boundaries.
pub fn slice(s: &str, from: usize, to: usize) -> (r: &str)
    requires
        from <= to,
        boundary(encode_utf8(s@), from as int),
        boundary(encode_utf8(s@), to as int),
    ensures
        encode_utf8(r@) == encode_utf8(s@).subrange(from as int, to as int),
        r@ == text_between(encode_utf8(s@), from as int, to as int),
{
    proof {
        encode_utf8_valid_utf8(s@);
        lemma_boundary(encode_utf8(s@), to as int);
    }
    let (head, _tail) = s.split_at(to);
    proof {
        encode_utf8_valid_utf8(head@);
        assert(boundary(encode_utf8(head@), from as int));
        lemma_boundary(encode_utf8(head@), from as int);
    }
    let (_skip, part) = head.split_at(from);
    proof {
        assert(encode_utf8(part@) =~= encode_utf8(s@).subrange(from as int, to as int));
        encode_utf8_decode_utf8(part@);
    }
    part
}

/// The number of bytes equal to `c` at the beginning of `b[i..end]`.
pub open spec fn run_of(b: Seq<u8>, i: int, end: int, c: u8) -> int
    decreases end - i,
{
    if i < end && b[i] == c {
        1 + run_of(b, i + 1, end, c)
    } else {
        0
    }
}

pub proof fn lemma_run_of(b: Seq<u8>, i: int, end: int, c: u8)
    ensures
        0 <= run_of(b, i, end, c),
        i <= end ==> i + run_of(b, i, end, c) <= end,
        i < end && b[i] == c ==> run_of(b, i, end, c) >= 1,
        forall|j: int| i <= j < i + run_of(b, i, end, c) ==> b[j] == c,
    decreases end - i,
{
    if i < end && b[i] == c {
        lemma_run_of(b, i + 1, end, c);
    }
}

/// A run measured from its beginning.
pub proof fn lemma_run_of_is(b: Seq<u8>, i: int, end: int, c: u8, n: int)
    requires
        0 <= n,
        i + n <= end,
        forall|j: int| i <= j < i + n ==> b[j] == c,
        i + n == end || b[i + n] != c,
    ensures
        run_of(b, i, end, c) == n,
    decreases n,
{
    if n > 0 {
        lemma_run_of_is(b, i + 1, end, c, n - 1);
    }
}

/// The number of bytes equal to `c` at the beginning of `b[i..end]`.
pub fn run_len(b: &[u8], i: usize, end: usize, c: u8) -> (n: usize)
    requires
        i <= end <= b@.len(),
    ensures
        n == run_of(b@, i as int, end as int, c),
        i + n <= end,
{
    let mut j: usize = i;
    while j < end && b[j] == c
        invariant
            i <= j <= end <= b@.len(),
            forall|k: int| i <= k < j ==> b@[k] == c,
        decreases end - j,
    {
        j += 1;
    }
    proof {
        lemma_run_of_is(b@, i as int, end as int, c, j - i);
    }
    j - i
}

/// Whether `part` stands in `b` at `at`.
pub open spec fn stands_at(b: Seq<u8>, at: int, part: Seq<u8>) -> bool {
    0 <= at && at + part.len() <= b.len() && b.subrange(at, at + part.len()) == part
}

/// Whether `part` stands in `b` at `at`.
pub fn is_at(b: &[u8], at: usize, part: &[u8]) -> (yes: bool)
    requires
        at <= b@.len(),
    ensures
        yes == stands_at(b@, at as int, part@),
{
    if b.len() - at < part.len() {
        return false;
    }
    let mut j: usize = 0;
    while j < part.len()
        invariant
            j <= part@.len(),
            at + part@.len() <= b@.len() <= usize::MAX,
            forall|k: int| 0 <= k < j ==> b@[at + k] == part@[k],
        decreases part@.len() - j,
    {
        if b[at + j] != part[j] {
            assert(b@.subrange(at as int, at + part@.len())[j as int] != part@[j as int]);
            return false;
        }
        j += 1;
    }
    assert(b@.subrange(at as int, at + part@.len()) =~= part@);
    true
}

} // verus!
