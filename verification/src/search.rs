//! Find and replace.
//!
//! The find prompt is incremental: typing jumps to the first match at or after where the
//! search started, and stepping through the matches wraps. Replacing every match is one
//! undo step. The current match is shown as a selection, so it is visible in any view.

use vstd::prelude::*;
use vstd::utf8::*;

use crate::bytes::{boundary, lemma_boundary_ends, slice, text_between};
use crate::editor::{floor_boundary, lemma_replaced_bytes, Editor, EditorView};
use crate::line_index::least;
use crate::matches::{found, matches_fit, SearchKey, SearchMatch, SearchOptions};
use crate::strings::{byte_len, byte_length, opt_str};

verus! {

/// Where to go back to when a search is cancelled.
#[derive(Clone, Copy, Debug, PartialEq, Eq, Structural)]
pub struct FindRestore {
    pub cursor: usize,
    pub selection_anchor: Option<usize>,
}

/// The first match from index `k` on that begins at or after `from`.
pub open spec fn first_from(m: Seq<SearchMatch>, from: int, k: int) -> Option<int>
    decreases m.len() - k,
{
    if k < 0 || k >= m.len() {
        None
    } else if m[k].start >= from {
        Some(k)
    } else {
        first_from(m, from, k + 1)
    }
}

/// The last of the first `k` matches that begins before `from`.
pub open spec fn last_before(m: Seq<SearchMatch>, from: int, k: int) -> Option<int>
    decreases k,
{
    if k <= 0 || k > m.len() {
        None
    } else if m[k - 1].start < from {
        Some(k - 1)
    } else {
        last_before(m, from, k - 1)
    }
}

/// Whether a match begins at a place.
pub open spec fn begins_at(m: Seq<SearchMatch>, at: int) -> bool {
    exists|k: int| 0 <= k < m.len() && (#[trigger] m[k]).start == at
}

/// The match to go to while a query is typed: the first at or after where the search
/// started, or else the first of all.
pub open spec fn match_from(m: Seq<SearchMatch>, origin: int) -> Option<int> {
    if m.len() == 0 {
        None
    } else {
        match first_from(m, origin, 0) {
            Some(k) => Some(k),
            None => Some(0),
        }
    }
}

/// The next (or previous) match, around the end. When sitting on a match, step off it;
/// otherwise a match exactly there is the natural first hit.
pub open spec fn match_after(m: Seq<SearchMatch>, from: int, forward: bool) -> Option<int> {
    if m.len() == 0 {
        None
    } else if forward {
        match first_from(
            m,
            if begins_at(m, from) {
                from + 1
            } else {
                from
            },
            0,
        ) {
            Some(k) => Some(k),
            None => Some(0),
        }
    } else {
        match last_before(m, from, m.len() as int) {
            Some(k) => Some(k),
            None => Some(m.len() - 1),
        }
    }
}

/// Where the text after the first `k` matches begins.
pub open spec fn end_of(m: Seq<SearchMatch>, k: int) -> int {
    if k <= 0 {
        0
    } else {
        m[k - 1].end as int
    }
}

/// The text up to the end of the `k`-th match, each match replaced.
pub open spec fn replaced_upto(b: Seq<u8>, m: Seq<SearchMatch>, by: Seq<char>, k: int) -> Seq<char>
    decreases k,
{
    if k <= 0 {
        Seq::empty()
    } else {
        replaced_upto(b, m, by, k - 1) + text_between(b, end_of(m, k - 1), m[k - 1].start as int) + by
    }
}

/// A text with each match replaced.
pub open spec fn all_replaced(b: Seq<u8>, m: Seq<SearchMatch>, by: Seq<char>) -> Seq<char> {
    replaced_upto(b, m, by, m.len() as int) + text_between(
        b,
        end_of(m, m.len() as int),
        b.len() as int,
    )
}

/// Where a place goes when the matches from the `k`-th on are replaced: with the text
/// around it, or to the end of the replacement that covers it.
pub open spec fn place_after(b: Seq<u8>, m: Seq<SearchMatch>, by: Seq<char>, at: int, k: int) -> usize
    decreases m.len() - k,
{
    if k < 0 || k >= m.len() || at < m[k].start {
        (byte_len(replaced_upto(b, m, by, k)) as usize).saturating_add(
            (at - end_of(m, k)) as usize,
        )
    } else if at < m[k].end {
        byte_len(replaced_upto(b, m, by, k + 1)) as usize
    } else {
        place_after(b, m, by, at, k + 1)
    }
}

impl EditorView {
    /// The editor at a match, selected or not.
    pub open spec fn at_match(self, m: SearchMatch, select: bool) -> EditorView {
        let v = self.run_ended();
        if select {
            EditorView { anchor: Some(m.start), ..v.at(m.end as int) }.synced()
        } else {
            v.at(m.start as int).unselected().synced()
        }
    }

    /// The editor after a character of a query was typed.
    #[verifier::opaque]
    pub open spec fn found_from(self, key: SearchKey, origin: int) -> EditorView {
        let m = found(self.doc.text, key);
        let v = self.after_search(key);
        match match_from(m, origin) {
            Some(k) => v.at_match(m[k], true),
            None => v.unselected(),
        }
    }

    /// Where stepping starts: at the selection, or the cursor.
    pub open spec fn step_origin(self) -> int {
        match self.selection() {
            Some((s, e)) => s as int,
            None => self.cursor.byte as int,
        }
    }

    /// The editor after a step to the next (or previous) match, and what to say.
    #[verifier::opaque]
    pub open spec fn match_stepped(self, key: SearchKey, forward: bool, select: bool) -> (
        EditorView,
        Option<Seq<char>>,
    ) {
        let m = found(self.doc.text, key);
        let v = self.after_search(key);
        match match_after(m, self.step_origin(), forward) {
            Some(k) => (v.at_match(m[k], select), None),
            None => (v, Some("No matches"@)),
        }
    }

    /// The match that is selected.
    #[verifier::opaque]
    pub open spec fn selected_match(self, key: SearchKey) -> Option<SearchMatch> {
        match self.selection() {
            Some((start, end)) => {
                let one = SearchMatch { start, end };
                if found(self.doc.text, key).contains(one) {
                    Some(one)
                } else {
                    None
                }
            },
            None => None,
        }
    }

    /// The editor with the selected match replaced.
    #[verifier::opaque]
    pub open spec fn match_replaced(self, key: SearchKey, by: Seq<char>) -> EditorView {
        let v = match self.selection() {
            Some(_) => self.after_search(key),
            None => self,
        };
        match self.selected_match(key) {
            Some(m) => v.run_ended().replaced(
                m.start as int,
                m.end as int,
                by,
                None,
            ).run_ended(),
            None => v,
        }
    }

    /// The editor with every match replaced, in one step.
    #[verifier::opaque]
    pub open spec fn matches_replaced(self, key: SearchKey, by: Seq<char>) -> EditorView {
        let m = found(self.doc.text, key);
        let v = self.after_search(key);
        if m.len() == 0 {
            v
        } else {
            v.run_ended().replaced(
                0,
                self.bytes().len() as int,
                all_replaced(self.bytes(), m, by),
                Some(place_after(self.bytes(), m, by, self.cursor.byte as int, 0)),
            ).run_ended()
        }
    }

    /// The editor back where a search began.
    #[verifier::opaque]
    pub open spec fn find_cancelled(self, restore: FindRestore) -> EditorView {
        let b = self.bytes();
        let len = b.len() as int;
        EditorView {
            anchor: match restore.selection_anchor {
                Some(a) => Some(floor_boundary(b, least(a as int, len)) as usize),
                None => None,
            },
            ..self.at(floor_boundary(b, least(restore.cursor as int, len)))
        }.synced()
    }
}

/// A scope after a match in it was replaced.
pub open spec fn scope_after(scope: Option<(usize, usize)>, m: SearchMatch, by: Seq<char>) -> Option<
    (usize, usize),
> {
    match scope {
        Some((from, to)) => if m.end <= to {
            Some(
                (
                    from,
                    to.saturating_add(byte_len(by) as usize).saturating_sub(
                        (m.end - m.start) as usize,
                    ),
                ),
            )
        } else {
            scope
        },
        None => None,
    }
}

/// Stepping through the matches visits only matches.
pub proof fn lemma_step_is_a_match(m: Seq<SearchMatch>, from: int, forward: bool)
    ensures
        match_after(m, from, forward) is Some <==> m.len() > 0,
        match_after(m, from, forward) is Some ==> 0 <= match_after(m, from, forward)->0 < m.len(),
{
    lemma_first_from(
        m,
        if begins_at(m, from) {
            from + 1
        } else {
            from
        },
        0,
    );
    lemma_last_before(m, from, m.len() as int);
}

proof fn lemma_first_from(m: Seq<SearchMatch>, from: int, k: int)
    requires
        0 <= k,
    ensures
        match first_from(m, from, k) {
            Some(j) => k <= j < m.len() && m[j].start >= from && forall|i: int|
                k <= i < j ==> (#[trigger] m[i]).start < from,
            None => forall|i: int| k <= i < m.len() ==> (#[trigger] m[i]).start < from,
        },
    decreases m.len() - k,
{
    if k < m.len() && m[k].start < from {
        lemma_first_from(m, from, k + 1);
    }
}

proof fn lemma_last_before(m: Seq<SearchMatch>, from: int, k: int)
    requires
        0 <= k <= m.len(),
    ensures
        match last_before(m, from, k) {
            Some(j) => 0 <= j < k && m[j].start < from && forall|i: int|
                j < i < k ==> (#[trigger] m[i]).start >= from,
            None => forall|i: int| 0 <= i < k ==> (#[trigger] m[i]).start >= from,
        },
    decreases k,
{
    if k > 0 && m[k - 1].start >= from {
        lemma_last_before(m, from, k - 1);
    }
}

/// Stepping forward from a match goes to the next one, and around the end to the first.
pub proof fn lemma_steps_wrap(m: Seq<SearchMatch>, b: Seq<u8>, k: int)
    requires
        matches_fit(m, b),
        0 <= k < m.len(),
    ensures
        match_after(m, m[k].start as int, true) == Some(
            if k + 1 < m.len() {
                k + 1
            } else {
                0
            },
        ),
        match_after(m, m[k].start as int, false) == Some(
            if k > 0 {
                k - 1
            } else {
                m.len() - 1
            },
        ),
{
    let from = m[k].start as int;
    assert(begins_at(m, from));
    lemma_first_from(m, from + 1, 0);
    lemma_last_before(m, from, m.len() as int);
    assert forall|i: int| 0 <= i < m.len() && i != k implies (i < k ==> m[i].start < from) && (i > k
        ==> m[i].start > from) by {
        if i < k {
            assert(m[i].end <= m[k].start);
        } else {
            assert(m[k].end <= m[i].start);
        }
    }
    if k + 1 < m.len() {
        assert(m[k + 1].start > from);
    }
    if k > 0 {
        assert(m[k - 1].start < from);
    }
    match first_from(m, from + 1, 0) {
        Some(j) => {
            assert(j > k);
        },
        None => {},
    }
    match last_before(m, from, m.len() as int) {
        Some(j) => {
            assert(j < k);
        },
        None => {},
    }
}

/// Where nothing matches, replacing changes nothing.
pub proof fn lemma_replacing_nothing(text: Seq<char>, by: Seq<char>)
    ensures
        all_replaced(encode_utf8(text), Seq::<SearchMatch>::empty(), by) == text,
{
    let b = encode_utf8(text);
    assert(b.subrange(0, b.len() as int) =~= b);
    encode_utf8_decode_utf8(text);
    assert(replaced_upto(b, Seq::<SearchMatch>::empty(), by, 0) =~= Seq::<char>::empty());
    assert(all_replaced(b, Seq::<SearchMatch>::empty(), by) =~= text);
}

/// The first match at or after a place.
fn first_match(m: &Vec<SearchMatch>, from: usize) -> (k: Option<usize>)
    ensures
        match k {
            Some(k) => first_from(m@, from as int, 0) == Some(k as int) && k < m@.len(),
            None => first_from(m@, from as int, 0) is None,
        },
{
    let mut k: usize = 0;
    while k < m.len()
        invariant
            k <= m@.len(),
            first_from(m@, from as int, 0) == first_from(m@, from as int, k as int),
        decreases m@.len() - k,
    {
        if m[k].start >= from {
            return Some(k);
        }
        k += 1;
    }
    None
}

/// The last match before a place.
fn last_match(m: &Vec<SearchMatch>, from: usize) -> (k: Option<usize>)
    ensures
        match k {
            Some(k) => last_before(m@, from as int, m@.len() as int) == Some(k as int) && k
                < m@.len(),
            None => last_before(m@, from as int, m@.len() as int) is None,
        },
{
    let mut k: usize = m.len();
    while k > 0
        invariant
            k <= m@.len(),
            last_before(m@, from as int, m@.len() as int) == last_before(m@, from as int, k as int),
        decreases k,
    {
        if m[k - 1].start < from {
            return Some(k - 1);
        }
        k -= 1;
    }
    None
}

fn is_begun_at(m: &Vec<SearchMatch>, at: usize) -> (yes: bool)
    ensures
        yes == begins_at(m@, at as int),
{
    let mut k: usize = 0;
    while k < m.len()
        invariant
            k <= m@.len(),
            forall|i: int| 0 <= i < k ==> (#[trigger] m@[i]).start != at,
        decreases m@.len() - k,
    {
        if m[k].start == at {
            assert(m@[k as int].start == at);
            return true;
        }
        k += 1;
    }
    false
}

/// Whether a range is one of the matches.
fn is_match(m: &Vec<SearchMatch>, one: SearchMatch) -> (yes: bool)
    ensures
        yes == m@.contains(one),
{
    let mut k: usize = 0;
    while k < m.len()
        invariant
            k <= m@.len(),
            forall|i: int| 0 <= i < k ==> m@[i] != one,
        decreases m@.len() - k,
    {
        if m[k] == one {
            assert(m@[k as int] == one);
            return true;
        }
        k += 1;
    }
    false
}

/// The index of the match that begins at a place.
pub fn match_index(m: &Vec<SearchMatch>, at: usize) -> (k: Option<usize>)
    ensures
        match k {
            Some(k) => k < m@.len() && m@[k as int].start == at && forall|i: int|
                0 <= i < k ==> (#[trigger] m@[i]).start != at,
            None => !begins_at(m@, at as int),
        },
{
    let mut k: usize = 0;
    while k < m.len()
        invariant
            k <= m@.len(),
            forall|i: int| 0 <= i < k ==> (#[trigger] m@[i]).start != at,
        decreases m@.len() - k,
    {
        if m[k].start == at {
            return Some(k);
        }
        k += 1;
    }
    None
}

/// A text with each match replaced, and where a place in it goes.
pub fn replace_matches(text: &str, m: &Vec<SearchMatch>, by: &str, at: usize) -> (r: (
    String,
    usize,
))
    requires
        matches_fit(m@, encode_utf8(text@)),
        at <= byte_len(text@),
    ensures
        r.0@ == all_replaced(encode_utf8(text@), m@, by@),
        r.1 == place_after(encode_utf8(text@), m@, by@, at as int, 0),
{
    let ghost b = encode_utf8(text@);
    let len: usize = byte_length(text);
    proof {
        encode_utf8_valid_utf8(text@);
        lemma_boundary_ends(b);
    }
    let mut out = String::new();
    let mut prev: usize = 0;
    let mut placed = false;
    let mut place: usize = 0;
    let mut k: usize = 0;
    assert(out@ =~= replaced_upto(b, m@, by@, 0));
    while k < m.len()
        invariant
            k <= m@.len(),
            b == encode_utf8(text@),
            len == b.len(),
            at <= len,
            boundary(b, 0),
            boundary(b, len as int),
            matches_fit(m@, b),
            prev == end_of(m@, k as int),
            prev <= len,
            boundary(b, prev as int),
            !placed ==> prev <= at,
            out@ == replaced_upto(b, m@, by@, k as int),
            !placed ==> place_after(b, m@, by@, at as int, 0) == place_after(
                b,
                m@,
                by@,
                at as int,
                k as int,
            ),
            placed ==> place == place_after(b, m@, by@, at as int, 0),
        decreases m@.len() - k,
    {
        let one = m[k];
        assert(m@[k as int].start < m@[k as int].end <= b.len());
        if k > 0 {
            assert(m@[k - 1].end <= m@[k as int].start);
        }
        if !placed && at < one.start {
            place = byte_length(out.as_str()).saturating_add(at - prev);
            placed = true;
        }
        let part = slice(text, prev, one.start);
        out.append(part);
        out.append(by);
        assert(out@ =~= replaced_upto(b, m@, by@, k + 1));
        if !placed && at < one.end {
            place = byte_length(out.as_str());
            placed = true;
        }
        prev = one.end;
        k += 1;
    }
    if !placed {
        place = byte_length(out.as_str()).saturating_add(at - prev);
    }
    let rest = slice(text, prev, len);
    out.append(rest);
    (out, place)
}

impl Editor {
    /// Go to a match, and select it or not.
    fn jump_to_match(&mut self, found: SearchMatch, select: bool)
        requires
            old(self).wf(),
            boundary(old(self)@.bytes(), found.start as int),
            boundary(old(self)@.bytes(), found.end as int),
        ensures
            final(self).wf(),
            final(self)@ == old(self)@.at_match(found, select),
    {
        self.break_run();
        if select {
            self.set_anchor(Some(found.start));
            self.place_cursor(found.end);
        } else {
            self.set_anchor(None);
            self.place_cursor(found.start);
        }
        self.sync_goal();
    }

    /// Jump to the first match at or after where the search started (used
    /// while typing the query). Wraps to the first match in the document.
    pub fn find_from_origin(
        &mut self,
        query: &str,
        options: SearchOptions,
        scope: Option<(usize, usize)>,
        origin: usize,
    )
        requires
            old(self).wf(),
        ensures
            final(self).wf(),
            final(self)@ == old(self)@.found_from(
                SearchKey { query: query@, options, scope },
                origin as int,
            ),
    {
        proof {
            reveal(EditorView::found_from);
        }
        let m = self.search_matches(query, options, scope);
        if m.len() == 0 {
            self.set_anchor(None);
            return;
        }
        let k: usize = match first_match(&m, origin) {
            Some(k) => k,
            None => 0,
        };
        let one = m[k];
        assert(m@[k as int].start < m@[k as int].end);
        self.jump_to_match(one, true);
    }

    /// Step to the next/previous match from the current position, wrapping. What comes
    /// back is the status to show.
    pub fn find_step(
        &mut self,
        query: &str,
        options: SearchOptions,
        scope: Option<(usize, usize)>,
        forward: bool,
        select: bool,
    ) -> (status: Option<&'static str>)
        requires
            old(self).wf(),
        ensures
            final(self).wf(),
            (final(self)@, opt_str(status)) == old(self)@.match_stepped(
                SearchKey { query: query@, options, scope },
                forward,
                select,
            ),
    {
        proof {
            reveal(EditorView::match_stepped);
        }
        let from: usize = match self.selection_range() {
            Some((s, _e)) => s,
            None => self.cursor().byte,
        };
        let m = self.search_matches(query, options, scope);
        if m.len() == 0 {
            return Some("No matches");
        }
        proof {
            lemma_step_is_a_match(m@, from as int, forward);
        }
        let k: usize = if forward {
            let hit = if is_begun_at(&m, from) {
                if from == usize::MAX {
                    proof {
                        lemma_first_from(m@, from + 1, 0);
                    }
                    None
                } else {
                    first_match(&m, from + 1)
                }
            } else {
                first_match(&m, from)
            };
            match hit {
                Some(k) => k,
                None => 0,
            }
        } else {
            match last_match(&m, from) {
                Some(k) => k,
                None => m.len() - 1,
            }
        };
        let one = m[k];
        assert(m@[k as int].start < m@[k as int].end);
        self.jump_to_match(one, select);
        None
    }

    /// Replace the currently selected match. What comes back is the match, if one was
    /// selected.
    pub fn replace_selected(
        &mut self,
        query: &str,
        options: SearchOptions,
        scope: Option<(usize, usize)>,
        by: &str,
    ) -> (replaced: Option<SearchMatch>)
        requires
            old(self).wf(),
        ensures
            final(self).wf(),
            replaced == old(self)@.selected_match(SearchKey { query: query@, options, scope }),
            final(self)@ == old(self)@.match_replaced(
                SearchKey { query: query@, options, scope },
                by@,
            ),
    {
        proof {
            reveal(EditorView::selected_match);
        }
        proof {
            reveal(EditorView::match_replaced);
        }
        proof {
            self.lemma_ok();
        }
        let (start, end) = match self.selection_range() {
            Some((s, e)) => (s, e),
            None => {
                return None;
            },
        };
        let one = SearchMatch { start, end };
        let m = self.search_matches(query, options, scope);
        if !is_match(&m, one) {
            return None;
        }
        self.break_run();
        self.replace_range(start, end, by);
        self.break_run();
        Some(one)
    }

    /// Replace every match in one pass — a single undo step — and keep the
    /// cursor at its position adjusted for the replacements before it. What comes back is
    /// their number.
    pub fn replace_all(
        &mut self,
        query: &str,
        options: SearchOptions,
        scope: Option<(usize, usize)>,
        by: &str,
    ) -> (count: usize)
        requires
            old(self).wf(),
        ensures
            final(self).wf(),
            count == found(old(self)@.doc.text, SearchKey { query: query@, options, scope }).len(),
            final(self)@ == old(self)@.matches_replaced(
                SearchKey { query: query@, options, scope },
                by@,
            ),
    {
        proof {
            reveal(EditorView::matches_replaced);
        }
        proof {
            self.lemma_ok();
        }
        let m = self.search_matches(query, options, scope);
        if m.len() == 0 {
            return 0;
        }
        let text = self.text();
        let at: usize = self.cursor().byte;
        let (out, place) = replace_matches(text.as_str(), &m, by, at);
        let len: usize = self.buffer().len_bytes();
        proof {
            encode_utf8_valid_utf8(self@.doc.text);
            lemma_boundary_ends(self@.bytes());
        }
        self.break_run();
        self.replace_range_with_cursor(0, len, out.as_str(), Some(place));
        self.break_run();
        m.len()
    }

    /// Go back to where a search began.
    pub fn cancel_find(&mut self, restore: FindRestore)
        requires
            old(self).wf(),
        ensures
            final(self).wf(),
            final(self)@ == old(self)@.find_cancelled(restore),
    {
        proof {
            reveal(EditorView::find_cancelled);
        }
        let place: usize = self.clamp_place(restore.cursor);
        let anchor = match restore.selection_anchor {
            Some(a) => Some(self.clamp_place(a)),
            None => None,
        };
        self.place_cursor(place);
        self.set_anchor(anchor);
        self.sync_goal();
    }
}

/// Stepping forward from anywhere leads to the first match that begins behind the place, or
/// at it, if the place is no match itself, and around the end to the first of all; stepping
/// back leads to the last match that begins before the place, and around the beginning to
/// the last of all.
pub proof fn lemma_steps_lead_to_the_nearest(m: Seq<SearchMatch>, b: Seq<u8>, from: int, i: int)
    requires
        matches_fit(m, b),
        m.len() > 0,
        0 <= i < m.len(),
    ensures
        ({
            let on = exists|k: int| 0 <= k < m.len() && (#[trigger] m[k]).start == from;
            let f = match_after(m, from, true)->0;
            let l = match_after(m, from, false)->0;
            &&& m[i].start > from || m[i].start == from && !on ==> from <= m[f].start <= m[i].start
                && (m[f].start > from || !on)
            &&& (forall|k: int| 0 <= k < m.len() ==> (#[trigger] m[k]).start < from) || on && (
            forall|k: int| 0 <= k < m.len() ==> (#[trigger] m[k]).start <= from) ==> f == 0
            &&& m[i].start < from ==> m[i].start <= m[l].start < from
            &&& (forall|k: int| 0 <= k < m.len() ==> (#[trigger] m[k]).start >= from) ==> l == m.len()
                - 1
        }),
{
    let on = begins_at(m, from);
    let start = if on {
        from + 1
    } else {
        from
    };
    lemma_first_from(m, start, 0);
    lemma_last_before(m, from, m.len() as int);
    assert forall|x: int, y: int| 0 <= x < y < m.len() implies m[x].start < m[y].start by {
        assert(m[x].end <= m[y].start);
    }
    match first_from(m, start, 0) {
        Some(j) => {
            if j < i {
                assert(m[j].start < m[i].start);
            }
            if i < j {
                assert(m[i].start < start);
            }
        },
        None => {
            assert(m[i].start < start);
        },
    }
    match last_before(m, from, m.len() as int) {
        Some(j) => {
            if i > j {
                assert(m[i].start >= from);
            }
            if i < j {
                assert(m[i].start < m[j].start);
            }
        },
        None => {
            assert(m[i].start >= from);
        },
    }
}

/// What is between the matches before the `k`-th, one after the other.
pub open spec fn left_alone(b: Seq<u8>, m: Seq<SearchMatch>, k: int) -> Seq<char>
    decreases k,
{
    if k <= 0 {
        Seq::empty()
    } else {
        left_alone(b, m, k - 1) + text_between(b, end_of(m, k - 1), m[k - 1].start as int)
    }
}

/// Replacing every match by nothing leaves what is between the matches, in its order; and
/// replacing by a text makes the whole longer by that text for every match.
pub proof fn lemma_replacing_keeps_the_rest(b: Seq<u8>, m: Seq<SearchMatch>, by: Seq<char>, k: int)
    requires
        0 <= k <= m.len(),
    ensures
        replaced_upto(b, m, Seq::empty(), k) == left_alone(b, m, k),
        replaced_upto(b, m, by, k).len() == left_alone(b, m, k).len() + k * by.len(),
    decreases k,
{
    if k > 0 {
        lemma_replacing_keeps_the_rest(b, m, by, k - 1);
        let between = text_between(b, end_of(m, k - 1), m[k - 1].start as int);
        assert(left_alone(b, m, k - 1) + between + Seq::<char>::empty() =~= left_alone(b, m, k - 1)
            + between);
        assert((k - 1) * by.len() + by.len() == k * by.len()) by (nonlinear_arith);
    } else {
        assert(0 * by.len() == 0) by (nonlinear_arith);
    }
}

/// Replacing every match by what it says changes nothing.
pub proof fn lemma_replacing_by_itself(text: Seq<char>, m: Seq<SearchMatch>, by: Seq<char>)
    requires
        matches_fit(m, encode_utf8(text)),
        forall|i: int|
            0 <= i < m.len() ==> text_between(
                encode_utf8(text),
                (#[trigger] m[i]).start as int,
                m[i].end as int,
            ) == by,
    ensures
        all_replaced(encode_utf8(text), m, by) == text,
{
    let b = encode_utf8(text);
    let n = m.len() as int;
    encode_utf8_valid_utf8(text);
    crate::bytes::lemma_boundary_ends(b);
    lemma_replaced_by_itself_upto(text, m, by, n);
    if n > 0 {
        assert(boundary(b, m[n - 1].end as int));
    }
    crate::markdown::laws::lemma_text_joins(text, 0, end_of(m, n), b.len() as int);
    assert(b.subrange(0, b.len() as int) =~= b);
    encode_utf8_decode_utf8(text);
}

proof fn lemma_replaced_by_itself_upto(text: Seq<char>, m: Seq<SearchMatch>, by: Seq<char>, k: int)
    requires
        matches_fit(m, encode_utf8(text)),
        0 <= k <= m.len(),
        forall|i: int|
            0 <= i < m.len() ==> text_between(
                encode_utf8(text),
                (#[trigger] m[i]).start as int,
                m[i].end as int,
            ) == by,
    ensures
        replaced_upto(encode_utf8(text), m, by, k) == text_between(
            encode_utf8(text),
            0,
            end_of(m, k),
        ),
    decreases k,
{
    let b = encode_utf8(text);
    encode_utf8_valid_utf8(text);
    crate::bytes::lemma_boundary_ends(b);
    if k > 0 {
        lemma_replaced_by_itself_upto(text, m, by, k - 1);
        let x = end_of(m, k - 1);
        let (y, z) = (m[k - 1].start as int, m[k - 1].end as int);
        if k > 1 {
            assert(boundary(b, m[k - 2].end as int));
            assert(m[k - 2].end <= m[k - 1].start);
        }
        crate::markdown::laws::lemma_text_joins(text, 0, x, y);
        crate::markdown::laws::lemma_text_joins(text, 0, y, z);
    } else {
        assert(b.subrange(0, 0) =~= encode_utf8(Seq::<char>::empty()));
        encode_utf8_decode_utf8(Seq::<char>::empty());
    }
}

/// A step to a match puts the cursor at its beginning, or selects it whole; the text stays.
#[verifier::spinoff_prover]
pub proof fn lemma_steps_show_the_match(e: EditorView, key: SearchKey, forward: bool, select: bool)
    ensures
        ({
            let m = found(e.doc.text, key);
            let from = match e.selection() {
                Some((s, end)) => s as int,
                None => e.cursor.byte as int,
            };
            let (w, status) = e.match_stepped(key, forward, select);
            &&& w.doc == e.doc
            &&& m.len() == 0 ==> status == Some("No matches"@) && w.cursor == e.cursor && w.anchor
                == e.anchor
            &&& m.len() > 0 ==> status is None && ({
                let one = m[match_after(m, from, forward)->0];
                if select {
                    w.anchor == Some(one.start) && w.cursor.byte == one.end
                } else {
                    w.anchor is None && w.cursor.byte == one.start
                }
            })
        }),
{
    reveal(EditorView::match_stepped);
}

/// Replacing the match that is selected puts the replacement in its place; where no match is
/// selected nothing is replaced.
#[verifier::spinoff_prover]
pub proof fn lemma_the_match_is_replaced(e: EditorView, key: SearchKey, by: Seq<char>)
    requires
        e.ok(),
        e.has_room((e.bytes().len() + byte_len(by)) as int),
    ensures
        ({
            let w = e.match_replaced(key, by);
            match e.selection() {
                Some((s, end)) => if found(e.doc.text, key).contains(
                    SearchMatch { start: s, end },
                ) {
                    &&& w.bytes() == e.bytes().take(s as int) + encode_utf8(by) + e.bytes().skip(
                        end as int,
                    )
                    &&& w.cursor.byte == s + byte_len(by)
                } else {
                    w.doc == e.doc
                },
                None => w.doc == e.doc,
            }
        }),
{
    reveal(EditorView::match_replaced);
    reveal(EditorView::selected_match);
    match e.selection() {
        Some((s, end)) => {
            lemma_replaced_bytes(e.after_search(key).run_ended(), s as int, end as int, by);
        },
        None => {},
    }
}

/// Replacing every match makes a text of it in one step.
#[verifier::spinoff_prover]
pub proof fn lemma_all_matches_are_replaced(e: EditorView, key: SearchKey, by: Seq<char>)
    requires
        e.ok(),
        e.bytes().len() > 0,
        e.has_room(byte_len(all_replaced(e.bytes(), found(e.doc.text, key), by)) as int),
    ensures
        found(e.doc.text, key).len() == 0 ==> e.matches_replaced(key, by).doc == e.doc,
        found(e.doc.text, key).len() > 0 ==> e.matches_replaced(key, by).doc.text == all_replaced(
            e.bytes(),
            found(e.doc.text, key),
            by,
        ),
{
    reveal(EditorView::matches_replaced);
    let b = e.bytes();
    let m = found(e.doc.text, key);
    let text = all_replaced(b, m, by);
    if m.len() > 0 {
        reveal(EditorView::replaced);
        reveal(EditorView::changed);
        encode_utf8_valid_utf8(e.doc.text);
        crate::bytes::lemma_boundary_ends(b);
        crate::buffer::lemma_edited_bytes(e.doc.text, 0, b.len() as int, text);
        assert(crate::history::spliced(b, 0, b.len() as int, encode_utf8(text)) =~= encode_utf8(
            text,
        ));
        crate::strings::lemma_bytes_injective(
            crate::buffer::edited_text(e.doc.text, 0, b.len() as int, text),
            text,
        );
    }
}

} // verus!
