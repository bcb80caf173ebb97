//! How a replacement of text moves the lines of a document.

use vstd::prelude::*;
use vstd::utf8::*;

use crate::bytes::boundary;
use crate::history::spliced;
use crate::line_index::{lines_replaced, Splice};
use crate::rope::{
    break_ends_at, breaks_before, lemma_breaks_before, lemma_breaks_before_prefix, lemma_line_of,
    lemma_line_start, lemma_line_starts_grow, lemma_suffix_breaks, line_bytes, line_count, line_start,
    place_after_breaks,
};

verus! {

/// Whether a replacement at `start` puts a line feed right behind a carriage return that
/// ended a line of its own: the line above then takes in the first byte of the new text.
pub open spec fn joins_crlf(before: Seq<u8>, after: Seq<u8>, start: int) -> bool {
    &&& 0 < start < after.len()
    &&& before[start - 1] == 13
    &&& after[start] == 10
    &&& break_ends_at(before, start)
}

/// The lines that a replacement of the bytes `[start, end)` by `inserted` bytes exchanges.
pub open spec fn edit_splice(
    before: Seq<u8>,
    after: Seq<u8>,
    start: int,
    end: int,
    inserted: int,
) -> Splice {
    let first = breaks_before(before, start);
    Splice {
        start: first,
        removed: breaks_before(before, end) - first + 1,
        added: breaks_before(after, start + inserted) - first + 1,
    }
}

proof fn lemma_place_is(b: Seq<u8>, line: int, p: int, q: int)
    requires
        0 <= p <= q <= b.len(),
        forall|i: int| p <= i < q ==> #[trigger] breaks_before(b, i) < line,
        q == b.len() || breaks_before(b, q) >= line,
    ensures
        place_after_breaks(b, line, p) == q,
    decreases q - p,
{
    if p < q {
        assert(breaks_before(b, p) < line);
        lemma_place_is(b, line, p + 1, q);
    }
}

proof fn lemma_line_start_is(b: Seq<u8>, line: int, q: int)
    requires
        0 <= q <= b.len(),
        forall|i: int| 0 <= i < q ==> #[trigger] breaks_before(b, i) < line,
        q == b.len() || breaks_before(b, q) >= line,
    ensures
        line_start(b, line) == q,
{
    lemma_place_is(b, line, 0, q);
}

/// The lines down to the one that a replacement begins on begin where they did.
pub proof fn lemma_lines_above_an_edit(
    before: Seq<u8>,
    start: int,
    end: int,
    inserted: Seq<u8>,
    l: int,
)
    requires
        boundary(before, start),
        boundary(before, end),
        start <= end,
        !joins_crlf(before, spliced(before, start, end - start, inserted), start),
        0 <= l <= breaks_before(before, start),
    ensures
        line_start(spliced(before, start, end - start, inserted), l) == line_start(before, l),
        0 <= line_start(before, l) <= start,
{
    let after = spliced(before, start, end - start, inserted);
    let first = breaks_before(before, start);
    assert forall|p: int| 0 <= p < start implies breaks_before(before, p) == #[trigger] breaks_before(
        after,
        p,
    ) by {
        lemma_breaks_before_prefix(before, after, p);
    }
    assert(breaks_before(after, start) >= first) by {
        if start > 0 {
            assert(breaks_before(before, start - 1) == breaks_before(after, start - 1));
            assert(after[start - 1] == before[start - 1]);
            if start >= 2 {
                assert(after[start - 2] == before[start - 2]);
            }
            if start >= 3 {
                assert(after[start - 3] == before[start - 3]);
            }
            if break_ends_at(before, start) {
                assert(break_ends_at(after, start));
            }
        }
    }
    lemma_breaks_before(before, start, before.len() as int);
    lemma_line_start(before, l);
    let q = line_start(before, l);
    if q > start {
        assert(breaks_before(before, start) < l);
    }
    assert forall|i: int| 0 <= i < q implies #[trigger] breaks_before(after, i) < l by {
        assert(breaks_before(before, i) < l);
    }
    if q < start {
        assert(breaks_before(before, q) == breaks_before(after, q));
    }
    lemma_line_start_is(after, l, q);
}

/// A replacement that joins no carriage return and line feed leaves the lines before and
/// after it as they were: it exchanges the lines from the one that it begins on to the one
/// that it ends on.
pub proof fn lemma_edit_replaces_lines(before: Seq<u8>, start: int, end: int, inserted: Seq<u8>)
    requires
        valid_utf8(before),
        boundary(before, start),
        boundary(before, end),
        start <= end,
        boundary(spliced(before, start, end - start, inserted), start + inserted.len()),
        !joins_crlf(before, spliced(before, start, end - start, inserted), start),
    ensures
        ({
            let after = spliced(before, start, end - start, inserted);
            let s = edit_splice(before, after, start, end, inserted.len() as int);
            lines_replaced(before, after, s)
        }),
{
    let n = inserted.len() as int;
    let after = spliced(before, start, end - start, inserted);
    let s = edit_splice(before, after, start, end, n);
    let d = n - (end - start);
    let first = breaks_before(before, start);
    let last = breaks_before(before, end);
    let new_last = breaks_before(after, start + n);
    assert(before.skip(end) =~= after.skip(start + n));
    assert forall|p: int| 0 <= p < start implies breaks_before(before, p) == #[trigger] breaks_before(
        after,
        p,
    ) by {
        lemma_breaks_before_prefix(before, after, p);
    }
    assert(breaks_before(after, start) >= first) by {
        if start > 0 {
            assert(breaks_before(before, start - 1) == breaks_before(after, start - 1));
            assert(after[start - 1] == before[start - 1]);
            if start >= 2 {
                assert(after[start - 2] == before[start - 2]);
            }
            if start >= 3 {
                assert(after[start - 3] == before[start - 3]);
            }
            if break_ends_at(before, start) {
                assert(break_ends_at(after, start));
            }
        }
    }
    lemma_breaks_before(after, start, start + n);
    lemma_breaks_before(before, start, end);
    lemma_breaks_before(before, 0, start);
    lemma_breaks_before(before, end, before.len() as int);
    lemma_breaks_before(after, start + n, after.len() as int);
    lemma_suffix_breaks(before, end, before.len() - end);
    lemma_suffix_breaks(after, start + n, after.len() - (start + n));
    assert(line_count(before) - s.removed == line_count(after) - s.added);
    assert forall|l: int| 0 <= l <= first implies line_start(after, l) == #[trigger] line_start(
        before,
        l,
    ) && line_start(before, l) <= start by {
        lemma_lines_above_an_edit(before, start, end, inserted, l);
    }
    assert forall|l: int| 0 <= l < s.start implies #[trigger] line_bytes(before, l) == line_bytes(
        after,
        l,
    ) by {
        lemma_line_starts_grow(before, l, l + 1);
        assert(line_start(after, l) == line_start(before, l));
        assert(line_start(after, l + 1) == line_start(before, l + 1));
        assert(line_bytes(before, l) =~= line_bytes(after, l));
    }
    assert forall|l: int| last < l <= line_count(before) implies #[trigger] line_start(
        after,
        l - last + new_last,
    ) == line_start(before, l) + d && line_start(before, l) >= end by {
        lemma_line_start(before, l);
        let q = line_start(before, l);
        let m = l - last + new_last;
        if q < end {
            if l < line_count(before) {
                lemma_breaks_before(before, q, end);
            }
        }
        assert forall|i: int| 0 <= i < q + d implies #[trigger] breaks_before(after, i) < m by {
            if i >= start + n {
                let k = i - (start + n);
                lemma_suffix_breaks(before, end, k);
                lemma_suffix_breaks(after, start + n, k);
                assert(breaks_before(before, end + k) < l);
            } else {
                lemma_breaks_before(after, i, start + n);
            }
        }
        if q < before.len() {
            let k = q - end;
            lemma_suffix_breaks(before, end, k);
            lemma_suffix_breaks(after, start + n, k);
        }
        lemma_line_start_is(after, m, q + d);
    }
    assert forall|l: int| s.start + s.added <= l < line_count(after) implies #[trigger] line_bytes(
        after,
        l,
    ) == line_bytes(before, l - s.added + s.removed) by {
        let o = l - s.added + s.removed;
        assert(o - last + new_last == l);
        assert(line_start(after, o - last + new_last) == line_start(before, o) + d);
        assert(line_start(after, (o + 1) - last + new_last) == line_start(before, o + 1) + d);
        lemma_line_starts_grow(before, o, o + 1);
        assert(line_bytes(after, l) =~= line_bytes(before, o));
    }
}

/// Whether bytes are a line ending that is typed.
pub open spec fn typed_ending(nl: Seq<u8>) -> bool {
    nl == seq![10u8] || nl == seq![13u8, 10u8]
}

/// Whether a line ending can be put in at a place without joining what stands before it:
/// not right behind a carriage return, unless that ends a line and a carriage return follows.
pub open spec fn splits_cleanly(b: Seq<u8>, at: int, nl: Seq<u8>) -> bool {
    at > 0 && b[at - 1] == 13 ==> break_ends_at(b, at) && nl[0] == 13
}

proof fn lemma_split_breaks(b: Seq<u8>, at: int, nl: Seq<u8>, i: int)
    requires
        valid_utf8(b),
        boundary(b, at),
        typed_ending(nl),
        splits_cleanly(b, at, nl),
        0 <= i <= b.len(),
    ensures
        i <= at ==> breaks_before(spliced(b, at, 0, nl), i) == breaks_before(b, i),
        i >= at ==> breaks_before(spliced(b, at, 0, nl), i + nl.len()) == breaks_before(b, i) + 1,
        breaks_before(spliced(b, at, 0, nl), at + nl.len() - 1) == breaks_before(b, at),
{
    let after = spliced(b, at, 0, nl);
    let n = nl.len() as int;
    assert(after.len() == b.len() + n);
    assert forall|p: int| 0 <= p < at implies #[trigger] breaks_before(after, p) == breaks_before(
        b,
        p,
    ) by {
        lemma_breaks_before_prefix(b, after, p);
    }
    assert(breaks_before(after, at) == breaks_before(b, at)) by {
        if at > 0 {
            assert(breaks_before(after, at - 1) == breaks_before(b, at - 1));
            assert(after[at - 1] == b[at - 1]);
            if at >= 2 {
                assert(after[at - 2] == b[at - 2]);
            }
            if at >= 3 {
                assert(after[at - 3] == b[at - 3]);
            }
            assert(after[at] == nl[0]);
            assert(break_ends_at(after, at) == break_ends_at(b, at));
        }
    }
    assert(after[at] == nl[0]);
    if n == 2 {
        assert(after[at + 1] == nl[1]);
        assert(breaks_before(after, at + 1) == breaks_before(after, at));
    }
    assert(after[at + n - 1] == 10);
    assert(break_ends_at(after, at + n));
    assert(breaks_before(after, at + n) == breaks_before(b, at) + 1);
    if i >= at {
        lemma_behind_a_splice(b, at, nl);
        lemma_suffix_breaks(b, at, i - at);
        lemma_suffix_breaks(after, at + n, i - at);
        assert(b.skip(at) =~= after.skip(at + n));
    }
}

/// The place behind what was put in begins a character where the place did.
proof fn lemma_behind_a_splice(b: Seq<u8>, at: int, nl: Seq<u8>)
    requires
        boundary(b, at),
    ensures
        boundary(spliced(b, at, 0, nl), at + nl.len()),
{
    let after = spliced(b, at, 0, nl);
    if at < b.len() {
        assert(after[at + nl.len()] == b[at]);
    }
}

/// A line ending that is put in cuts the line there in two, and leaves the others alone:
/// what stood before the place is a line, with that ending, and what stood behind it, with
/// the ending that the line had, is the next.
pub proof fn lemma_line_ending_cuts_a_line(b: Seq<u8>, at: int, nl: Seq<u8>, l: int)
    requires
        valid_utf8(b),
        boundary(b, at),
        typed_ending(nl),
        splits_cleanly(b, at, nl),
        0 <= l < line_count(b),
    ensures
        ({
            let after = spliced(b, at, 0, nl);
            let line = breaks_before(b, at);
            &&& line_count(after) == line_count(b) + 1
            &&& breaks_before(after, at) == line
            &&& breaks_before(after, at + nl.len()) == line + 1
            &&& line_start(after, line) == line_start(b, line)
            &&& line_start(after, line + 1) == at + nl.len()
            &&& line_bytes(after, line) == b.subrange(line_start(b, line), at) + nl
            &&& line_bytes(after, line + 1) == b.subrange(at, line_start(b, line + 1))
            &&& l < line ==> line_bytes(after, l) == line_bytes(b, l)
            &&& l > line ==> line_bytes(after, l + 1) == line_bytes(b, l)
        }),
{
    let after = spliced(b, at, 0, nl);
    let n = nl.len() as int;
    let line = breaks_before(b, at);
    let len = b.len() as int;
    assert(after.len() == len + n);
    assert forall|i: int| 0 <= i <= at implies #[trigger] breaks_before(after, i) == breaks_before(
        b,
        i,
    ) by {
        lemma_split_breaks(b, at, nl, i);
    }
    assert forall|i: int| at <= i <= len implies #[trigger] breaks_before(b, i) + 1
        == breaks_before(after, i + n) by {
        lemma_split_breaks(b, at, nl, i);
    }
    lemma_split_breaks(b, at, nl, at);
    lemma_line_of(b, at);
    assert(line_count(after) == line_count(b) + 1) by {
        assert(breaks_before(b, len) + 1 == breaks_before(after, len + n));
    }
    assert forall|k: int| 0 <= k <= line implies #[trigger] line_start(after, k) == line_start(
        b,
        k,
    ) by {
        lemma_split_start_above(b, at, nl, k);
    }
    assert(line_start(after, line + 1) == at + n) by {
        assert forall|i: int| 0 <= i < at + n implies #[trigger] breaks_before(after, i) < line
            + 1 by {
            if i <= at {
                lemma_breaks_before(b, i, at);
            } else {
                lemma_breaks_before(after, i, at + n - 1);
            }
        }
        lemma_line_start_is(after, line + 1, at + n);
    }
    assert forall|k: int| line < k <= line_count(b) implies #[trigger] line_start(b, k) + n
        == line_start(after, k + 1) by {
        lemma_split_start_below(b, at, nl, k);
    }
    lemma_line_starts_grow(b, line, line + 1);
    assert(line_bytes(after, line) =~= b.subrange(line_start(b, line), at) + nl);
    assert(line_start(b, line + 1) + n == line_start(after, line + 1 + 1));
    assert(line_bytes(after, line + 1) =~= b.subrange(at, line_start(b, line + 1)));
    if l < line {
        lemma_line_starts_grow(b, l, l + 1);
        lemma_line_starts_grow(b, l + 1, line);
        assert(line_start(after, l) == line_start(b, l));
        assert(line_start(after, l + 1) == line_start(b, l + 1));
        assert(line_bytes(after, l) =~= line_bytes(b, l));
    }
    if l > line {
        lemma_line_starts_grow(b, l, l + 1);
        lemma_line_starts_grow(b, line + 1, l);
        assert(line_start(b, l) + n == line_start(after, l + 1));
        assert(line_start(b, l + 1) + n == line_start(after, l + 1 + 1));
        assert(line_bytes(after, l + 1) =~= line_bytes(b, l));
    }
}

proof fn lemma_split_start_above(b: Seq<u8>, at: int, nl: Seq<u8>, k: int)
    requires
        valid_utf8(b),
        boundary(b, at),
        typed_ending(nl),
        splits_cleanly(b, at, nl),
        0 <= k <= breaks_before(b, at),
    ensures
        line_start(spliced(b, at, 0, nl), k) == line_start(b, k),
        line_start(b, k) <= at,
{
    let after = spliced(b, at, 0, nl);
    lemma_line_of(b, at);
    lemma_line_start(b, k);
    let q = line_start(b, k);
    if q > at {
        assert(breaks_before(b, at) < k);
    }
    assert forall|i: int| 0 <= i < q implies #[trigger] breaks_before(after, i) < k by {
        lemma_split_breaks(b, at, nl, i);
        assert(breaks_before(b, i) < k);
    }
    lemma_split_breaks(b, at, nl, q);
    lemma_line_start_is(after, k, q);
}

proof fn lemma_split_start_below(b: Seq<u8>, at: int, nl: Seq<u8>, k: int)
    requires
        valid_utf8(b),
        boundary(b, at),
        typed_ending(nl),
        splits_cleanly(b, at, nl),
        breaks_before(b, at) < k <= line_count(b),
    ensures
        line_start(spliced(b, at, 0, nl), k + 1) == line_start(b, k) + nl.len(),
        at <= line_start(b, k),
{
    let after = spliced(b, at, 0, nl);
    let n = nl.len() as int;
    lemma_line_of(b, at);
    lemma_breaks_before(b, 0, at);
    lemma_line_start(b, k);
    lemma_line_starts_grow(b, breaks_before(b, at) + 1, k);
    let q = line_start(b, k);
    assert forall|i: int| 0 <= i < q + n implies #[trigger] breaks_before(after, i) < k + 1 by {
        if i <= at {
            lemma_split_breaks(b, at, nl, i);
            lemma_breaks_before(b, i, at);
        } else if i >= at + n {
            lemma_split_breaks(b, at, nl, i - n);
            assert(breaks_before(b, i - n) < k);
        } else {
            lemma_split_breaks(b, at, nl, at);
        }
    }
    lemma_split_breaks(b, at, nl, q);
    lemma_line_start_is(after, k + 1, q + n);
}

} // verus!
