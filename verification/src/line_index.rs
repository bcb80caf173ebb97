//! Per-line incremental metadata, kept in lockstep with edits:
//!
//! - the tokenizer's fence state at the start of every line, so any window of
//!   the document can be styled identically to a whole-document scan;
//! - cheap per-line class flags (blank, footnote syntax, definition-shaped),
//!   which the block index uses for its windowed-reparse seam rules and
//!   full-reparse triggers.

use ropey::Rope;
use std::ops::Range;
use vstd::prelude::*;
use vstd::utf8::encode_utf8;

use crate::markdown::tokenizer::{after_line, fence_transition, FenceState};
use crate::rope::{
    line_bytes, line_count, rope_bytes, rope_len_lines, rope_line,
};

verus! {

/// The line is entirely whitespace.
pub const BLANK: u8 = 1;

/// The line contains `[^`: footnote syntax (reference or definition). An edit touching
/// such a line can flip a *distant* definition between owned block and gap, so the
/// block index always falls back to a full reparse around these.
pub const FOOTNOTE: u8 = 2;

/// The line looks like a link reference definition: first non-blank byte is
/// `[` and it contains `]:`. A superset of real definitions; false positives
/// only cost a spurious full reparse.
pub const DEF_COLON: u8 = 4;

/// What an edit did to the index, for the block index's trigger checks.
pub struct LineUpdate {
    /// OR of the replaced lines' pre-edit flags and the new lines' flags.
    pub touched_flags: u8,
    /// First line at/after the splice whose stored fence state re-converged
    /// (the number of lines when the ripple ran to the end of the document).
    pub resynced_at: usize,
}

/// The fence state and the class flags of every line.
pub struct LineIndex {
    fence: Vec<FenceState>,
    flags: Vec<u8>,
}

/// What a [`LineIndex`] holds.
#[verifier::ext_equal]
pub struct LineIndexView {
    pub fence: Seq<FenceState>,
    pub flags: Seq<u8>,
}

impl View for LineIndex {
    type V = LineIndexView;

    closed spec fn view(&self) -> LineIndexView {
        LineIndexView { fence: self.fence@, flags: self.flags@ }
    }
}

/// Whether `b` is ASCII white space.
pub open spec fn ascii_white(b: u8) -> bool {
    b == 32 || b == 9 || b == 10 || b == 12 || b == 13
}

/// Whether a line holds nothing but white space.
pub open spec fn blank_line(line: Seq<u8>) -> bool {
    forall|i: int| 0 <= i < line.len() ==> ascii_white(#[trigger] line[i])
}

/// Whether `x` is directly followed by `y` in a line.
pub open spec fn has_pair(line: Seq<u8>, x: u8, y: u8) -> bool {
    exists|i: int| 0 <= i < line.len() - 1 && #[trigger] line[i] == x && line[i + 1] == y
}

/// Whether the first byte of a line that is not white space is `x`.
pub open spec fn first_visible_is(line: Seq<u8>, x: u8) -> bool {
    exists|i: int|
        0 <= i < line.len() && #[trigger] line[i] == x && !ascii_white(x) && forall|j: int|
            0 <= j < i ==> ascii_white(#[trigger] line[j])
}

/// The class flags of a line.
pub open spec fn flags_of(line: Seq<u8>) -> u8 {
    let blank: int = if blank_line(line) {
        1
    } else {
        0
    };
    let footnote: int = if has_pair(line, 91, 94) {
        2
    } else {
        0
    };
    let definition: int = if has_pair(line, 93, 58) && first_visible_is(line, 91) {
        4
    } else {
        0
    };
    (blank + footnote + definition) as u8
}

/// The tokenizer's state at the start of a line.
pub open spec fn fence_before(b: Seq<u8>, line: int) -> FenceState
    decreases line,
{
    if line <= 0 {
        FenceState::outside()
    } else {
        after_line(line_bytes(b, line - 1), fence_before(b, line - 1))
    }
}

/// The index of a document.
pub open spec fn indexed(b: Seq<u8>) -> LineIndexView {
    LineIndexView {
        fence: Seq::new(line_count(b) as nat, |l: int| fence_before(b, l)),
        flags: Seq::new(line_count(b) as nat, |l: int| flags_of(line_bytes(b, l))),
    }
}

/// The union of flags.
pub open spec fn union_of(flags: Seq<u8>) -> u8
    decreases flags.len(),
{
    if flags.len() == 0 {
        0
    } else {
        union_of(flags.drop_last()) | flags.last()
    }
}

/// The state after `n` lines from `line` on, from a given state.
pub open spec fn state_through(b: Seq<u8>, line: int, n: int, state: FenceState) -> FenceState
    decreases n,
{
    if n <= 0 {
        state
    } else {
        after_line(line_bytes(b, line + n - 1), state_through(b, line, n - 1, state))
    }
}

/// The first line from `line` on at which the stored state is the one that the text
/// gives, or the number of lines.
pub open spec fn resync_line(
    fence: Seq<FenceState>,
    b: Seq<u8>,
    line: int,
    state: FenceState,
) -> int
    decreases line_count(b) - line,
{
    if line >= line_count(b) {
        line_count(b)
    } else if 0 <= line < fence.len() && fence[line] == state {
        line
    } else {
        resync_line(fence, b, line + 1, after_line(line_bytes(b, line), state))
    }
}

/// The place of an edit, within the lines of the text after it and of the index before.
pub struct Splice {
    pub start: int,
    pub removed: int,
    pub added: int,
}

/// The smaller of two numbers.
pub open spec fn least(a: int, b: int) -> int {
    if a <= b {
        a
    } else {
        b
    }
}

/// The larger of two numbers.
pub open spec fn most(a: int, b: int) -> int {
    if a >= b {
        a
    } else {
        b
    }
}

/// The lines that an edit replaces, kept within the `cached` lines of the index and the
/// `total` lines of the text: at least one line is rebuilt.
pub open spec fn splice_of(cached: int, total: int, start: int, old_n: int, new_n: int) -> Splice {
    let s = least(start, total - 1);
    let o = least(most(old_n, 1), most(cached - s, 1));
    Splice {
        start: s,
        removed: least(s + o, cached) - s,
        added: least(most(new_n, 1), most(total - s, 1)),
    }
}

/// [`splice_of`], computed: the first line, the lines removed and the lines added.
pub fn clamp_edit(
    cached: usize,
    total: usize,
    start_line: usize,
    old_line_count: usize,
    new_line_count: usize,
) -> (r: (usize, usize, usize))
    requires
        total >= 1,
        least(start_line as int, total - 1) <= cached,
    ensures
        ({
            let s = splice_of(
                cached as int,
                total as int,
                start_line as int,
                old_line_count as int,
                new_line_count as int,
            );
            r.0 == s.start && r.1 == s.removed && r.2 == s.added
        }),
        r.0 + r.1 <= cached,
        r.0 + r.2 <= total,
        r.2 >= 1,
{
    let start: usize = if start_line < total {
        start_line
    } else {
        total - 1
    };
    let wanted: usize = if old_line_count >= 1 {
        old_line_count
    } else {
        1
    };
    let removed: usize = if wanted <= cached - start {
        wanted
    } else {
        cached - start
    };
    let fresh: usize = if new_line_count >= 1 {
        new_line_count
    } else {
        1
    };
    let added: usize = if fresh <= total - start {
        fresh
    } else {
        total - start
    };
    (start, removed, added)
}

/// The index after an edit: the replaced lines are rebuilt from the state before them,
/// and the states below until the stored one is right again.
pub open spec fn respliced(old_index: LineIndexView, b: Seq<u8>, s: Splice) -> LineIndexView {
    let entering = if s.start < old_index.fence.len() {
        old_index.fence[s.start]
    } else {
        FenceState::outside()
    };
    let end = s.start + s.added;
    let kept = old_index.fence.skip(s.start + s.removed);
    let shifted = old_index.fence.take(s.start) + Seq::new(
        s.added as nat,
        |i: int| state_through(b, s.start, i, entering),
    ) + kept;
    let leaving = state_through(b, s.start, s.added, entering);
    let resync = resync_line(shifted, b, end, leaving);
    LineIndexView {
        fence: Seq::new(
            shifted.len(),
            |l: int|
                if end <= l < resync {
                    state_through(b, end, l - end, leaving)
                } else {
                    shifted[l]
                },
        ),
        flags: old_index.flags.take(s.start) + Seq::new(
            s.added as nat,
            |i: int| flags_of(line_bytes(b, s.start + i)),
        ) + old_index.flags.skip(s.start + s.removed),
    }
}

/// The first line below an edit whose stored state was right.
pub open spec fn resynced(old_index: LineIndexView, b: Seq<u8>, s: Splice) -> int {
    let entering = if s.start < old_index.fence.len() {
        old_index.fence[s.start]
    } else {
        FenceState::outside()
    };
    let shifted = old_index.fence.take(s.start) + Seq::new(
        s.added as nat,
        |i: int| state_through(b, s.start, i, entering),
    ) + old_index.fence.skip(s.start + s.removed);
    resync_line(
        shifted,
        b,
        s.start + s.added,
        state_through(b, s.start, s.added, entering),
    )
}

/// Whether the text `after` is the text `before` with `removed` lines from `start` on
/// replaced by `added` lines.
pub open spec fn lines_replaced(before: Seq<u8>, after: Seq<u8>, s: Splice) -> bool {
    &&& 0 <= s.start
    &&& 1 <= s.added
    &&& 0 <= s.removed
    &&& s.start + s.removed <= line_count(before)
    &&& s.start + s.added <= line_count(after)
    &&& s.start < line_count(before)
    &&& line_count(before) - s.removed == line_count(after) - s.added
    &&& forall|l: int|
        0 <= l < s.start ==> #[trigger] line_bytes(before, l) == line_bytes(after, l)
    &&& forall|l: int|
        s.start + s.added <= l < line_count(after) ==> #[trigger] line_bytes(after, l)
            == line_bytes(before, l - s.added + s.removed)
}

proof fn lemma_fence_before_prefix(a: Seq<u8>, b: Seq<u8>, n: int)
    requires
        forall|l: int| 0 <= l < n ==> #[trigger] line_bytes(a, l) == line_bytes(b, l),
    ensures
        fence_before(a, n) == fence_before(b, n),
    decreases n,
{
    if n > 0 {
        assert(line_bytes(a, n - 1) == line_bytes(b, n - 1));
        lemma_fence_before_prefix(a, b, n - 1);
    }
}

proof fn lemma_state_through_from(b: Seq<u8>, line: int, n: int)
    requires
        0 <= line,
        0 <= n,
    ensures
        state_through(b, line, n, fence_before(b, line)) == fence_before(b, line + n),
    decreases n,
{
    if n > 0 {
        lemma_state_through_from(b, line, n - 1);
    }
}

proof fn lemma_resync_line(fence: Seq<FenceState>, b: Seq<u8>, line: int)
    requires
        0 <= line <= line_count(b),
    ensures
        ({
            let r = resync_line(fence, b, line, fence_before(b, line));
            &&& line <= r <= line_count(b)
            &&& r < line_count(b) ==> r < fence.len() && fence[r] == fence_before(b, r)
        }),
    decreases line_count(b) - line,
{
    if line < line_count(b) && !(line < fence.len() && fence[line] == fence_before(b, line)) {
        assert(fence_before(b, line + 1) == after_line(line_bytes(b, line), fence_before(b, line)));
        lemma_resync_line(fence, b, line + 1);
    }
}

/// Below a line whose stored state is right, every stored state is: the lines there are
/// those of the text before.
proof fn lemma_states_below(before: Seq<u8>, after: Seq<u8>, s: Splice, r: int, l: int)
    requires
        lines_replaced(before, after, s),
        s.start + s.added <= r <= l < line_count(after),
        fence_before(before, r - s.added + s.removed) == fence_before(after, r),
    ensures
        fence_before(before, l - s.added + s.removed) == fence_before(after, l),
    decreases l - r,
{
    if r < l {
        lemma_states_below(before, after, s, r, l - 1);
        assert(line_bytes(after, l - 1) == line_bytes(before, l - 1 - s.added + s.removed));
    }
}

/// An index that was right for the text before an edit is right for the text after it:
/// updating it gives the index that building it anew would.
pub proof fn lemma_incremental_index_is_fresh(before: Seq<u8>, after: Seq<u8>, s: Splice)
    requires
        lines_replaced(before, after, s),
    ensures
        respliced(indexed(before), after, s) == indexed(after),
{
    let old_index = indexed(before);
    let new_index = indexed(after);
    let r = respliced(old_index, after, s);
    let entering = old_index.fence[s.start];
    lemma_fence_before_prefix(before, after, s.start);
    assert(entering == fence_before(after, s.start));
    let end = s.start + s.added;
    lemma_state_through_from(after, s.start, s.added);
    let leaving = state_through(after, s.start, s.added, entering);
    assert(leaving == fence_before(after, end));
    let shifted = old_index.fence.take(s.start) + Seq::new(
        s.added as nat,
        |i: int| state_through(after, s.start, i, entering),
    ) + old_index.fence.skip(s.start + s.removed);
    assert(shifted.len() == line_count(after));
    lemma_resync_line(shifted, after, end);
    let resync = resync_line(shifted, after, end, leaving);
    assert forall|l: int| 0 <= l < line_count(after) implies r.fence[l] == fence_before(
        after,
        l,
    ) by {
        if l < s.start {
            assert forall|k: int| 0 <= k < l implies #[trigger] line_bytes(before, k)
                == line_bytes(after, k) by {}
            lemma_fence_before_prefix(before, after, l);
        } else if l < end {
            lemma_state_through_from(after, s.start, l - s.start);
        } else if l < resync {
            lemma_state_through_from(after, end, l - end);
        } else {
            assert(shifted[resync] == fence_before(after, resync));
            assert(shifted[resync] == fence_before(before, resync - s.added + s.removed));
            lemma_states_below(before, after, s, resync, l);
        }
    }
    assert(r.fence =~= new_index.fence);
    assert forall|l: int| 0 <= l < line_count(after) implies r.flags[l] == flags_of(
        line_bytes(after, l),
    ) by {
        if l < s.start {
            assert(line_bytes(before, l) == line_bytes(after, l));
        } else if l >= end {
            assert(line_bytes(after, l) == line_bytes(before, l - s.added + s.removed));
        }
    }
    assert(r.flags =~= new_index.flags);
}

/// Class flags for one line.
fn line_flags(line: &str) -> (flags: u8)
    ensures
        flags == flags_of(encode_utf8(line@)),
{
    let b = line.as_bytes();
    let mut blank = true;
    let mut definition = false;
    let mut footnote = false;
    let mut colon = false;
    let mut i: usize = 0;
    while i < b.len()
        invariant
            i <= b@.len(),
            blank == (forall|j: int| 0 <= j < i ==> ascii_white(#[trigger] b@[j])),
            definition == (exists|j: int|
                0 <= j < i && #[trigger] b@[j] == 91 && forall|k: int|
                    0 <= k < j ==> ascii_white(#[trigger] b@[k])),
            footnote == (exists|j: int|
                0 <= j < i - 1 && #[trigger] b@[j] == 91 && b@[j + 1] == 94),
            colon == (exists|j: int| 0 <= j < i - 1 && #[trigger] b@[j] == 93 && b@[j + 1] == 58),
        decreases b@.len() - i,
    {
        let c: u8 = b[i];
        let white = c == 32 || c == 9 || c == 10 || c == 12 || c == 13;
        if blank && !white {
            blank = false;
            definition = c == 91;
            proof {
                if c == 91 {
                    assert(b@[i as int] == 91);
                }
            }
        }
        if i > 0 && b[i - 1] == 91 && c == 94 {
            footnote = true;
            assert(b@[i - 1] == 91 && b@[i - 1 + 1] == 94);
        }
        if i > 0 && b[i - 1] == 93 && c == 58 {
            colon = true;
            assert(b@[i - 1] == 93 && b@[i - 1 + 1] == 58);
        }
        i += 1;
    }
    let mut flags: u8 = 0;
    if blank {
        flags += BLANK;
    }
    if footnote {
        flags += FOOTNOTE;
    }
    if colon && definition {
        flags += DEF_COLON;
    }
    flags
}

impl LineIndex {
    /// The two halves speak of the same lines.
    pub open spec fn wf(&self) -> bool {
        self@.fence.len() == self@.flags.len()
    }

    /// Index a document.
    pub fn build(rope: &Rope) -> (index: Self)
        ensures
            index@ == indexed(rope_bytes(*rope)),
            index.wf(),
    {
        let ghost b = rope_bytes(*rope);
        let total: usize = rope_len_lines(rope);
        let mut fence: Vec<FenceState> = Vec::new();
        let mut flags: Vec<u8> = Vec::new();
        let mut state = FenceState::new();
        let mut line: usize = 0;
        while line < total
            invariant
                b == rope_bytes(*rope),
                total == line_count(b),
                line <= total,
                fence@.len() == line,
                flags@.len() == line,
                state == fence_before(b, line as int),
                forall|l: int| 0 <= l < line ==> fence@[l] == fence_before(b, l),
                forall|l: int| 0 <= l < line ==> flags@[l] == flags_of(line_bytes(b, l)),
            decreases total - line,
        {
            let text = rope_line(rope, line);
            fence.push(state);
            flags.push(line_flags(text.as_str()));
            state = fence_transition(text.as_str(), state);
            line += 1;
        }
        let index = LineIndex { fence, flags };
        assert(index@.fence =~= indexed(b).fence);
        assert(index@.flags =~= indexed(b).flags);
        index
    }

    /// Tokenizer state at the start of `line`.
    pub fn fence_at(&self, line: usize) -> (state: FenceState)
        ensures
            state == (if line < self@.fence.len() {
                self@.fence[line as int]
            } else {
                FenceState::outside()
            }),
    {
        if line < self.fence.len() {
            self.fence[line]
        } else {
            FenceState::new()
        }
    }

    /// Class flags of `line`.
    pub fn flags_at(&self, line: usize) -> (flags: u8)
        ensures
            flags == (if line < self@.flags.len() {
                self@.flags[line as int]
            } else {
                0
            }),
    {
        if line < self.flags.len() {
            self.flags[line]
        } else {
            0
        }
    }

    /// Whether any line in `range` carries any flag of `mask`.
    pub fn any_flags_in(&self, range: Range<usize>, mask: u8) -> (any: bool)
        ensures
            any == exists|l: int|
                range.start <= l < range.end && l < self@.flags.len() && (#[trigger] self@.flags[l])
                    & mask != 0,
    {
        let end: usize = if range.end < self.flags.len() {
            range.end
        } else {
            self.flags.len()
        };
        let mut l: usize = range.start;
        while l < end
            invariant
                range.start <= l,
                end <= self.flags@.len(),
                end <= range.end,
                forall|k: int| range.start <= k < l && k < end ==> self.flags@[k] & mask == 0,
            decreases end - l,
        {
            if self.flags[l] & mask != 0 {
                assert(self@.flags[l as int] & mask != 0);
                return true;
            }
            l += 1;
        }
        false
    }

    /// Splice the edited lines and ripple fence transitions forward until the
    /// stored states re-converge. `old_line_count` lines from `start_line` on became
    /// `new_line_count` lines.
    #[verifier::rlimit(50)]
    pub fn apply_edit(
        &mut self,
        rope: &Rope,
        start_line: usize,
        old_line_count: usize,
        new_line_count: usize,
    ) -> (update: LineUpdate)
        requires
            old(self).wf(),
            old(self)@.fence.len() > 0 ==> {
                let total = line_count(rope_bytes(*rope));
                let cached = old(self)@.fence.len() as int;
                let s = splice_of(
                    cached,
                    total,
                    start_line as int,
                    old_line_count as int,
                    new_line_count as int,
                );
                s.start <= cached && cached - s.removed + s.added >= total
            },
        ensures
            ({
                let b = rope_bytes(*rope);
                let cached = old(self)@.fence.len() as int;
                let s = splice_of(
                    cached,
                    line_count(b),
                    start_line as int,
                    old_line_count as int,
                    new_line_count as int,
                );
                if cached == 0 {
                    &&& final(self)@ == indexed(b)
                    &&& update.touched_flags == 255
                    &&& update.resynced_at == line_count(b)
                } else {
                    &&& final(self)@ == respliced(old(self)@, b, s)
                    &&& update.touched_flags == union_of(
                        old(self)@.flags.subrange(s.start, s.start + s.removed) + final(self)@.flags.subrange(s.start, s.start + s.added),
                    )
                    &&& update.resynced_at == resynced(old(self)@, b, s)
                }
            }),
            final(self).wf(),
    {
        let ghost b = rope_bytes(*rope);
        let ghost before = self@;
        let total: usize = rope_len_lines(rope);
        proof {
            crate::rope::lemma_breaks_before(b, 0, b.len() as int);
        }
        let cached: usize = self.fence.len();
        if cached == 0 {
            *self = Self::build(rope);
            return LineUpdate { touched_flags: 255, resynced_at: total };
        }
        let ghost s = splice_of(
            cached as int,
            total as int,
            start_line as int,
            old_line_count as int,
            new_line_count as int,
        );
        let (start, removed, added) = clamp_edit(
            cached,
            total,
            start_line,
            old_line_count,
            new_line_count,
        );
        assert(s.start == start && s.removed == removed && s.added == added);

        // The state *entering* the edit is unchanged: the edit begins on
        // `start_line`, so the stored state at its start still holds.
        let entering = self.fence_at(start);
        let mut state = entering;
        // Pre-edit flags of the replaced lines, before they vanish.
        let mut touched: u8 = 0;
        let mut i: usize = 0;
        assert(before.flags.subrange(start as int, start as int) =~= Seq::empty());
        while i < removed
            invariant
                i <= removed,
                start + removed <= cached,
                cached == self.flags@.len(),
                self.flags@ == before.flags,
                touched == union_of(before.flags.subrange(start as int, start + i)),
            decreases removed - i,
        {
            touched = touched | self.flags[start + i];
            i += 1;
            assert(before.flags.subrange(start as int, start + i).drop_last()
                =~= before.flags.subrange(start as int, start + i - 1));
        }
        let mut fence_tail = self.fence.split_off(start);
        let mut fence_kept = fence_tail.split_off(removed);
        let mut flags_tail = self.flags.split_off(start);
        let mut flags_kept = flags_tail.split_off(removed);
        assert(fence_kept@ =~= before.fence.skip(start + removed));
        assert(flags_kept@ =~= before.flags.skip(start + removed));
        let ghost gone = before.flags.subrange(start as int, start + removed);
        let mut n: usize = 0;
        assert(gone + Seq::<u8>::empty() =~= gone);
        while n < added
            invariant
                b == rope_bytes(*rope),
                total == line_count(b),
                n <= added,
                start + added <= total,
                entering == (if start < before.fence.len() {
                    before.fence[start as int]
                } else {
                    FenceState::outside()
                }),
                state == state_through(b, start as int, n as int, entering),
                start <= before.fence.len(),
                before.fence.len() == before.flags.len(),
                self.fence@ == before.fence.take(start as int) + Seq::new(
                    n as nat,
                    |i: int| state_through(b, start as int, i, entering),
                ),
                self.flags@ == before.flags.take(start as int) + Seq::new(
                    n as nat,
                    |i: int| flags_of(line_bytes(b, start + i)),
                ),
                touched == union_of(
                    gone + Seq::new(n as nat, |i: int| flags_of(line_bytes(b, start + i))),
                ),
            decreases added - n,
        {
            let line: usize = start + n;
            let text = rope_line(rope, line);
            let flags: u8 = line_flags(text.as_str());
            let ghost so_far = gone + Seq::new(
                n as nat,
                |i: int| flags_of(line_bytes(b, start + i)),
            );
            self.fence.push(state);
            self.flags.push(flags);
            touched = touched | flags;
            state = fence_transition(text.as_str(), state);
            n += 1;
            proof {
                let now = gone + Seq::new(n as nat, |i: int| flags_of(line_bytes(b, start + i)));
                assert(now.drop_last() =~= so_far);
                assert(now.last() == flags);
                assert(self.fence@ =~= before.fence.take(start as int) + Seq::new(
                    n as nat,
                    |i: int| state_through(b, start as int, i, entering),
                ));
                assert(self.flags@ =~= before.flags.take(start as int) + Seq::new(
                    n as nat,
                    |i: int| flags_of(line_bytes(b, start + i)),
                ));
            }
        }
        self.fence.append(&mut fence_kept);
        self.flags.append(&mut flags_kept);
        let ghost shifted = self.fence@;
        let ghost end = start + added;
        let ghost leaving = state;
        assert(shifted =~= before.fence.take(start as int) + Seq::new(
            added as nat,
            |i: int| state_through(b, start as int, i, entering),
        ) + before.fence.skip(start + removed));
        let mut resynced_at: usize = total;
        let mut line: usize = start + added;
        let mut done = false;
        while line < total && !done
            invariant
                b == rope_bytes(*rope),
                total == line_count(b),
                end == start + added,
                end <= line <= total,
                total <= shifted.len(),
                self.fence@.len() == shifted.len(),
                self.flags@ == before.flags.take(start as int) + Seq::new(
                    added as nat,
                    |i: int| flags_of(line_bytes(b, start + i)),
                ) + before.flags.skip(start + removed),
                state == state_through(b, end as int, line - end, leaving),
                forall|l: int| end <= l < line ==> self.fence@[l] == state_through(
                    b,
                    end as int,
                    l - end,
                    leaving,
                ),
                forall|l: int|
                    0 <= l < shifted.len() && !(end <= l < line) ==> self.fence@[l] == shifted[l],
                !done ==> resync_line(shifted, b, end as int, leaving) == resync_line(
                    shifted,
                    b,
                    line as int,
                    state,
                ) && resynced_at == total,
                done ==> resync_line(shifted, b, end as int, leaving) == line && resynced_at
                    == line,
            decreases total - line + (if done {
                0int
            } else {
                1
            }),
        {
            if self.fence[line] == state {
                resynced_at = line;
                done = true;  // re-converged: everything below is already right
            } else {
                self.fence.set(line, state);
                let text = rope_line(rope, line);
                state = fence_transition(text.as_str(), state);
                line += 1;
            }
        }
        proof {
            assert(resynced_at == resync_line(shifted, b, end as int, leaving));
            assert(self@.fence =~= respliced(before, b, s).fence);
            assert(self@.flags =~= respliced(before, b, s).flags);
            assert(self@.flags.subrange(s.start, s.start + s.added) =~= Seq::new(
                added as nat,
                |i: int| flags_of(line_bytes(b, start + i)),
            ));
        }
        LineUpdate { touched_flags: touched, resynced_at }
    }
}

} // verus!
