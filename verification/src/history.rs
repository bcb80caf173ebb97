//! Undo/redo history.
//!
//! Each [`Edit`] is a reversible replacement: at byte `start`, `removed` text
//! became `inserted` text. Consecutive same-kind edits are coalesced into one
//! undo step (a typing burst undoes at once) unless a cursor move, a newline, or
//! an idle pause breaks the run. The history knows no time: the editor ends the run
//! where [`RUN_PAUSE`] has passed since the last edit. Nor does it touch the buffer: the
//! editor applies the (reverse) edit it hands back.

use vstd::prelude::*;
use vstd::utf8::{encode_utf8, valid_utf8};

use crate::bytes::boundary;
use crate::strings::{byte_len, byte_length, contains_char, has_char, lemma_bytes_concat};

verus! {

/// A reversible replacement.
#[derive(Clone)]
pub struct Edit {
    pub start: usize,
    pub removed: String,
    pub inserted: String,
    pub cursor_before: usize,
    pub cursor_after: usize,
}

/// What an [`Edit`] says.
pub struct EditView {
    pub start: int,
    pub removed: Seq<char>,
    pub inserted: Seq<char>,
    pub cursor_before: int,
    pub cursor_after: int,
}

impl View for Edit {
    type V = EditView;

    open spec fn view(&self) -> EditView {
        EditView {
            start: self.start as int,
            removed: self.removed@,
            inserted: self.inserted@,
            cursor_before: self.cursor_before as int,
            cursor_after: self.cursor_after as int,
        }
    }
}

/// Cap on retained undo steps. Beyond this the oldest steps are dropped, so a
/// long session cannot grow memory without bound.
pub const MAX_UNDO_STEPS: usize = 1_000;

/// How many milliseconds without an edit end a run of typing.
pub const RUN_PAUSE: u64 = 2_000;

/// The undo and redo stacks.
pub struct History {
    undo: Vec<Edit>,
    redo: Vec<Edit>,
    /// Whether the top undo edit may still absorb the next one.
    open: bool,
    /// Steps dropped off the bottom of the undo stack by the cap. Counted so
    /// `depth` stays a stable marker even after old steps are gone.
    dropped: usize,
    /// `depth()` at the last save; `None` when the saved state is no longer
    /// reachable through undo/redo.
    saved_depth: Option<usize>,
}

/// What a [`History`] holds, the newest edit of each stack last.
pub struct HistoryView {
    pub undo: Seq<EditView>,
    pub redo: Seq<EditView>,
    pub open: bool,
    pub dropped: nat,
    pub saved_depth: Option<nat>,
}

/// The edits of a stack.
pub open spec fn edit_views(edits: Seq<Edit>) -> Seq<EditView> {
    edits.map_values(|e: Edit| e@)
}

impl View for History {
    type V = HistoryView;

    closed spec fn view(&self) -> HistoryView {
        HistoryView {
            undo: edit_views(self.undo@),
            redo: edit_views(self.redo@),
            open: self.open,
            dropped: self.dropped as nat,
            saved_depth: match self.saved_depth {
                Some(d) => Some(d as nat),
                None => None,
            },
        }
    }
}

impl HistoryView {
    /// An empty history: the state is the saved one.
    pub open spec fn fresh() -> HistoryView {
        HistoryView {
            undo: Seq::empty(),
            redo: Seq::empty(),
            open: false,
            dropped: 0,
            saved_depth: Some(0),
        }
    }

    /// The number of steps from the oldest known state to the current one.
    pub open spec fn depth(self) -> nat {
        self.dropped + self.undo.len()
    }

    /// Whether the current state is the one last saved.
    pub open spec fn at_saved_state(self) -> bool {
        self.saved_depth == Some(self.depth())
    }

    /// The saved state lies on the path that undo and redo walk, a run that can
    /// still absorb typing has something in it and is never the saved state, and
    /// the stacks fit the machine.
    pub open spec fn wf(self) -> bool {
        &&& self.undo.len() + self.redo.len() <= MAX_UNDO_STEPS
        &&& self.depth() + self.redo.len() <= usize::MAX
        &&& match self.saved_depth {
            Some(d) => d <= self.depth() + self.redo.len(),
            None => true,
        }
        &&& self.open ==> !self.at_saved_state() && self.undo.len() > 0 && self.redo.len() == 0
    }

    /// The history once the redo branch is discarded. A saved state that lived
    /// there can no longer be reached.
    pub open spec fn without_redo(self) -> HistoryView {
        HistoryView {
            redo: Seq::empty(),
            saved_depth: match self.saved_depth {
                Some(d) => if d > self.depth() {
                    None
                } else {
                    Some(d)
                },
                None => None,
            },
            ..self
        }
    }

    /// The history with `edit` as a step of its own, the oldest steps beyond the
    /// cap dropped.
    pub open spec fn pushed(self, edit: EditView) -> HistoryView {
        let excess: int = if self.undo.len() + 1 > MAX_UNDO_STEPS {
            self.undo.len() + 1 - MAX_UNDO_STEPS
        } else {
            0
        };
        HistoryView {
            undo: self.undo.push(edit).skip(excess),
            open: !has_char(edit.inserted, '\n'),
            dropped: (self.dropped + excess) as nat,
            ..self
        }
    }

    /// The history after `edit` was made.
    pub open spec fn recorded(self, edit: EditView) -> HistoryView {
        let base = self.without_redo();
        if base.open && merged(base.undo.last(), edit) is Some {
            HistoryView {
                undo: base.undo.drop_last().push(merged(base.undo.last(), edit)->0),
                ..base
            }
        } else {
            base.pushed(edit)
        }
    }

    /// The history once the current state is on disk, with the run closed.
    pub open spec fn saved(self) -> HistoryView {
        HistoryView { open: false, saved_depth: Some(self.depth()), ..self }
    }

    /// The history after the last edit was undone.
    pub open spec fn undone(self) -> HistoryView {
        HistoryView {
            undo: self.undo.drop_last(),
            redo: self.redo.push(self.undo.last()),
            open: false,
            ..self
        }
    }

    /// The history after the last undone edit was made again.
    pub open spec fn redone(self) -> HistoryView {
        HistoryView {
            undo: self.undo.push(self.redo.last()),
            redo: self.redo.drop_last(),
            open: false,
            ..self
        }
    }
}

/// One edit that does what `top` and then `next` do, where the two belong to one
/// run: typing that goes on where it stopped, without a newline; deletions that
/// extend leftward; deletions at the same place.
pub open spec fn merged(top: EditView, next: EditView) -> Option<EditView> {
    let both_insert = top.removed.len() == 0 && next.removed.len() == 0;
    let both_delete = top.inserted.len() == 0 && next.inserted.len() == 0;
    if both_insert && !has_char(next.inserted, '\n') && next.start == top.start + byte_len(
        top.inserted,
    ) {
        Some(
            EditView {
                inserted: top.inserted + next.inserted,
                cursor_after: next.cursor_after,
                ..top
            },
        )
    } else if both_delete && next.start + byte_len(next.removed) == top.start {
        Some(
            EditView {
                removed: next.removed + top.removed,
                start: next.start,
                cursor_after: next.cursor_after,
                ..top
            },
        )
    } else if both_delete && next.start == top.start {
        Some(
            EditView {
                removed: top.removed + next.removed,
                cursor_after: next.cursor_after,
                ..top
            },
        )
    } else {
        None
    }
}

/// `text` with the bytes `[start, start + removed)` replaced by `inserted`.
pub open spec fn spliced(text: Seq<u8>, start: int, removed: int, inserted: Seq<u8>) -> Seq<u8> {
    text.take(start) + inserted + text.skip(start + removed)
}

impl EditView {
    /// Whether the text that the edit removes stands where it says.
    pub open spec fn applies_to(self, text: Seq<u8>) -> bool {
        &&& 0 <= self.start
        &&& self.start + byte_len(self.removed) <= text.len()
        &&& text.subrange(self.start, self.start + byte_len(self.removed)) == encode_utf8(
            self.removed,
        )
    }

    /// The text after the edit.
    pub open spec fn apply(self, text: Seq<u8>) -> Seq<u8> {
        spliced(text, self.start, byte_len(self.removed) as int, encode_utf8(self.inserted))
    }

    /// The edit that takes this one back.
    pub open spec fn inverse(self) -> EditView {
        EditView {
            start: self.start,
            removed: self.inserted,
            inserted: self.removed,
            cursor_before: self.cursor_after,
            cursor_after: self.cursor_before,
        }
    }
}

/// Undoing an edit restores the text it was made in, and the edit can be made again.
pub proof fn lemma_inverse_restores(e: EditView, text: Seq<u8>)
    requires
        e.applies_to(text),
    ensures
        e.inverse().applies_to(e.apply(text)),
        e.inverse().apply(e.apply(text)) == text,
        e.inverse().inverse() == e,
{
    let after = e.apply(text);
    let n = byte_len(e.inserted) as int;
    assert(after.subrange(e.start, e.start + n) =~= encode_utf8(e.inserted));
    assert(e.inverse().apply(after) =~= text);
}

/// A coalesced edit does what the two edits do one after the other, and applies
/// wherever the two do.
pub proof fn lemma_merged_edit_is_both(top: EditView, next: EditView, text: Seq<u8>)
    requires
        merged(top, next) is Some,
        top.applies_to(text),
        next.applies_to(top.apply(text)),
    ensures
        (merged(top, next)->0).applies_to(text),
        (merged(top, next)->0).apply(text) == next.apply(top.apply(text)),
        (merged(top, next)->0).cursor_before == top.cursor_before,
        (merged(top, next)->0).cursor_after == next.cursor_after,
{
    let m = merged(top, next)->0;
    let mid = top.apply(text);
    lemma_bytes_concat(top.inserted, next.inserted);
    lemma_bytes_concat(next.removed, top.removed);
    lemma_bytes_concat(top.removed, next.removed);
    assert(encode_utf8(Seq::<char>::empty()) =~= Seq::<u8>::empty());
    assert(top.removed.len() == 0 ==> top.removed =~= Seq::empty());
    assert(next.removed.len() == 0 ==> next.removed =~= Seq::empty());
    assert(top.inserted.len() == 0 ==> top.inserted =~= Seq::empty());
    assert(next.inserted.len() == 0 ==> next.inserted =~= Seq::empty());
    let tr = byte_len(top.removed) as int;
    let nr = byte_len(next.removed) as int;
    if top.removed.len() == 0 && next.removed.len() == 0 && !has_char(next.inserted, '\n')
        && next.start == top.start + byte_len(top.inserted) {
        assert(text.subrange(m.start, m.start + 0) =~= encode_utf8(m.removed));
        assert(m.apply(text) =~= next.apply(mid));
    } else if next.start + nr == top.start {
        assert(mid =~= text.take(top.start) + text.skip(top.start + tr));
        assert(mid.subrange(next.start, next.start + nr) =~= text.subrange(
            next.start,
            next.start + nr,
        ));
        assert(text.subrange(m.start, m.start + nr + tr) =~= text.subrange(
            next.start,
            next.start + nr,
        ) + text.subrange(top.start, top.start + tr));
        assert(m.apply(text) =~= next.apply(mid));
    } else {
        assert(mid =~= text.take(top.start) + text.skip(top.start + tr));
        assert(mid.subrange(next.start, next.start + nr) =~= text.subrange(
            top.start + tr,
            top.start + tr + nr,
        ));
        assert(text.subrange(m.start, m.start + tr + nr) =~= text.subrange(
            top.start,
            top.start + tr,
        ) + text.subrange(top.start + tr, top.start + tr + nr));
        assert(m.apply(text) =~= next.apply(mid));
    }
}

/// Whether an edit leads from one text to another, with all its places between
/// characters.
pub open spec fn leads(e: EditView, before: Seq<u8>, after: Seq<u8>) -> bool {
    &&& e.applies_to(before)
    &&& after == e.apply(before)
    &&& valid_utf8(before)
    &&& valid_utf8(after)
    &&& 2 * before.len() + 2 <= usize::MAX
    &&& boundary(before, e.start)
    &&& boundary(before, e.start + byte_len(e.removed))
    &&& boundary(after, e.start)
    &&& boundary(after, e.start + byte_len(e.inserted))
    &&& boundary(before, e.cursor_before)
    &&& boundary(after, e.cursor_after)
}

/// Whether the edits, the last first, lead back from a text.
pub open spec fn undoable(edits: Seq<EditView>, text: Seq<u8>) -> bool
    decreases edits.len(),
{
    edits.len() == 0 || {
        let before = edits.last().inverse().apply(text);
        leads(edits.last(), before, text) && undoable(edits.drop_last(), before)
    }
}

/// Whether the edits, the last first, lead on from a text.
pub open spec fn redoable(edits: Seq<EditView>, text: Seq<u8>) -> bool
    decreases edits.len(),
{
    edits.len() == 0 || {
        let after = edits.last().apply(text);
        leads(edits.last(), text, after) && 2 * after.len() + 2 <= usize::MAX && redoable(
            edits.drop_last(),
            after,
        )
    }
}

/// Dropping the oldest edits leaves the others able to lead back.
pub proof fn lemma_undoable_skip(edits: Seq<EditView>, text: Seq<u8>, k: int)
    requires
        undoable(edits, text),
        0 <= k <= edits.len(),
    ensures
        undoable(edits.skip(k), text),
    decreases edits.len(),
{
    if k < edits.len() {
        let before = edits.last().inverse().apply(text);
        lemma_undoable_skip(edits.drop_last(), before, k);
        assert(edits.skip(k).drop_last() =~= edits.drop_last().skip(k));
        assert(edits.skip(k).last() == edits.last());
    }
}

proof fn lemma_merged_leads(top: EditView, next: EditView, text: Seq<u8>, mid: Seq<u8>, after: Seq<
    u8,
>)
    requires
        merged(top, next) is Some,
        leads(top, text, mid),
        leads(next, mid, after),
    ensures
        leads(merged(top, next)->0, text, after),
{
    lemma_merged_edit_is_both(top, next, text);
    lemma_bytes_concat(top.inserted, next.inserted);
    lemma_bytes_concat(next.removed, top.removed);
    lemma_bytes_concat(top.removed, next.removed);
    assert(encode_utf8(Seq::<char>::empty()) =~= Seq::<u8>::empty());
    assert(top.removed.len() == 0 ==> top.removed =~= Seq::empty());
    assert(next.removed.len() == 0 ==> next.removed =~= Seq::empty());
    assert(top.inserted.len() == 0 ==> top.inserted =~= Seq::empty());
    assert(next.inserted.len() == 0 ==> next.inserted =~= Seq::empty());
    let m = merged(top, next)->0;
    let tr = byte_len(top.removed) as int;
    let nr = byte_len(next.removed) as int;
    if top.removed.len() == 0 && next.removed.len() == 0 && !has_char(next.inserted, '\n')
        && next.start == top.start + byte_len(top.inserted) {
        assert(after[m.start] == mid[m.start] || m.start >= next.start);
    } else {
        assert(mid =~= text.take(top.start) + text.skip(top.start + tr));
        if next.start + nr == top.start {
            if next.start < top.start {
                assert(mid[next.start] == text[next.start]);
            }
        } else {
            if top.start + nr < mid.len() {
                assert(mid[top.start + nr] == text[top.start + tr + nr]);
            }
        }
    }
}

/// A recorded edit can be taken back: the history leads back from the new text whenever
/// it led back from the old one.
pub proof fn lemma_recorded_is_undoable(h: HistoryView, e: EditView, before: Seq<u8>, after: Seq<
    u8,
>)
    requires
        h.wf(),
        undoable(h.undo, before),
        leads(e, before, after),
    ensures
        undoable(h.recorded(e).undo, after),
        redoable(h.recorded(e).redo, after),
{
    let base = h.without_redo();
    lemma_inverse_restores(e, before);
    if base.open && merged(base.undo.last(), e) is Some {
        let top = base.undo.last();
        let m = merged(top, e)->0;
        let start = top.inverse().apply(before);
        lemma_merged_leads(top, e, start, before, after);
        lemma_inverse_restores(m, start);
        let all = base.undo.drop_last().push(m);
        assert(all.drop_last() =~= base.undo.drop_last());
        assert(all.last() == m);
    } else {
        let all = base.undo.push(e);
        assert(all.drop_last() =~= base.undo);
        assert(all.last() == e);
        assert(undoable(all, after));
        let excess: int = if base.undo.len() + 1 > MAX_UNDO_STEPS {
            base.undo.len() + 1 - MAX_UNDO_STEPS
        } else {
            0
        };
        lemma_undoable_skip(all, after, excess);
    }
}

/// Undoing leads back to the text before the last edit, from which it can be made again.
pub proof fn lemma_undone_leads_back(h: HistoryView, text: Seq<u8>)
    requires
        h.undo.len() > 0,
        undoable(h.undo, text),
        redoable(h.redo, text),
        2 * text.len() + 2 <= usize::MAX,
    ensures
        ({
            let before = h.undo.last().inverse().apply(text);
            &&& undoable(h.undone().undo, before)
            &&& redoable(h.undone().redo, before)
        }),
{
    let e = h.undo.last();
    let all = h.redo.push(e);
    assert(all.drop_last() =~= h.redo);
    assert(all.last() == e);
}

/// Redoing leads on to the text after the last undone edit, from which it can be undone
/// again.
pub proof fn lemma_redone_leads_on(h: HistoryView, text: Seq<u8>)
    requires
        h.redo.len() > 0,
        undoable(h.undo, text),
        redoable(h.redo, text),
    ensures
        ({
            let after = h.redo.last().apply(text);
            &&& undoable(h.redone().undo, after)
            &&& redoable(h.redone().redo, after)
        }),
{
    let e = h.redo.last();
    lemma_inverse_restores(e, text);
    let all = h.undo.push(e);
    assert(all.drop_last() =~= h.undo);
    assert(all.last() == e);
}

/// Redoing right after undoing restores both stacks; only the open run is closed.
pub proof fn lemma_redo_undoes_undo(h: HistoryView)
    requires
        h.undo.len() > 0,
    ensures
        h.undone().redone() == (HistoryView { open: false, ..h }),
{
    assert(h.undone().redone().undo =~= h.undo);
    assert(h.undone().redone().redo =~= h.redo);
}

/// Undoing right after redoing restores both stacks.
pub proof fn lemma_undo_undoes_redo(h: HistoryView)
    requires
        h.redo.len() > 0,
    ensures
        h.redone().undone() == (HistoryView { open: false, ..h }),
{
    assert(h.redone().undone().undo =~= h.undo);
    assert(h.redone().undone().redo =~= h.redo);
}

/// A fresh edit leaves the saved state, whatever it coalesces with and whichever
/// redo branch it discards; and it keeps the history well formed.
pub proof fn lemma_recording_leaves_the_saved_state(h: HistoryView, edit: EditView)
    requires
        h.wf(),
        h.depth() < usize::MAX,
    ensures
        h.recorded(edit).wf(),
        !h.recorded(edit).at_saved_state(),
        h.recorded(edit).redo.len() == 0,
{
}

/// Once the saved state was in a discarded redo branch, no sequence of undos and
/// redos reaches it again.
pub proof fn lemma_lost_saved_state_stays_lost(h: HistoryView)
    requires
        h.saved_depth is None,
    ensures
        !h.at_saved_state(),
        !h.undone().at_saved_state(),
        !h.redone().at_saved_state(),
        h.undone().saved_depth is None,
        h.redone().saved_depth is None,
{
}

/// Recording an edit discards all that could be redone, whether or not the edit goes into
/// the last step.
pub proof fn lemma_recording_clears_redo(h: HistoryView, e: EditView)
    ensures
        h.recorded(e).redo == Seq::<EditView>::empty(),
{
}

/// A state that was saved is left by the next edit, which never goes into the saved step,
/// is found again by undoing it, and left again by redoing it.
pub proof fn lemma_saved_state_is_found_again(h: HistoryView, e: EditView)
    requires
        h.wf(),
    ensures
        h.saved().at_saved_state(),
        !h.saved().recorded(e).at_saved_state(),
        h.saved().recorded(e).undone().at_saved_state(),
        !h.saved().recorded(e).undone().redone().at_saved_state(),
{
}

/// Steps come back last in, first out: an edit that begins a step is the first to be
/// undone, as it was recorded, and the steps below it are left as they were.
pub proof fn lemma_steps_come_back(h: HistoryView, e: EditView)
    requires
        h.undo.len() < MAX_UNDO_STEPS,
    ensures
        ({
            let r = HistoryView { open: false, ..h }.recorded(e);
            &&& r.undo.len() > 0
            &&& r.undo.last() == e
            &&& r.undone().undo == h.undo
        }),
{
    let r = HistoryView { open: false, ..h }.recorded(e);
    assert(r.undo =~= h.undo.push(e));
    assert(r.undone().undo =~= h.undo);
}

impl History {
    /// An empty history: the state is the saved one.
    pub fn new() -> (h: Self)
        ensures
            h@ == HistoryView::fresh(),
            h@.wf(),
            h@.at_saved_state(),
    {
        let h = Self {
            undo: Vec::new(),
            redo: Vec::new(),
            open: false,
            dropped: 0,
            saved_depth: Some(0),
        };
        assert(h@.undo =~= Seq::empty());
        assert(h@.redo =~= Seq::empty());
        h
    }

    /// Stop coalescing: the next edit starts a fresh undo step. Called on cursor
    /// movement and other group boundaries.
    pub fn break_run(&mut self)
        ensures
            final(self)@ == (HistoryView { open: false, ..old(self)@ }),
            old(self)@.wf() ==> final(self)@.wf(),
    {
        self.open = false;
    }

    /// Mark the current state as the on-disk state (called after a save). Also
    /// closes the run, so later typing cannot coalesce into a saved-state edit.
    pub fn mark_saved(&mut self)
        requires
            old(self)@.wf(),
        ensures
            final(self)@ == old(self)@.saved(),
            final(self)@.wf(),
            final(self)@.at_saved_state(),
    {
        self.open = false;
        let depth: usize = self.depth();
        self.saved_depth = Some(depth);
    }

    /// Mark every state as different from the one on disk (called after text was restored
    /// that no file holds).
    pub fn mark_unsaved(&mut self)
        ensures
            final(self)@ == (HistoryView { saved_depth: None, ..old(self)@ }),
            old(self)@.wf() ==> final(self)@.wf(),
            !final(self)@.at_saved_state(),
    {
        self.saved_depth = None;
    }

    /// Whether undo/redo has returned the buffer to the last-saved state.
    pub fn at_saved_state(&self) -> (saved: bool)
        requires
            self@.wf(),
        ensures
            saved == self@.at_saved_state(),
    {
        match self.saved_depth {
            Some(d) => d == self.depth(),
            None => false,
        }
    }

    /// Whether another step can be counted.
    pub fn has_room(&self) -> (room: bool)
        requires
            self@.wf(),
        ensures
            room == (self@.depth() < usize::MAX),
    {
        self.depth() < usize::MAX
    }

    fn depth(&self) -> (d: usize)
        requires
            self@.wf(),
        ensures
            d == self@.depth(),
    {
        self.dropped + self.undo.len()
    }

    /// Record a new edit, coalescing it into the current run when possible.
    /// Any pending redo history is discarded.
    pub fn record(&mut self, edit: Edit)
        requires
            old(self)@.wf(),
            old(self)@.depth() < usize::MAX,
        ensures
            final(self)@ == old(self)@.recorded(edit@),
            final(self)@.wf(),
            !final(self)@.at_saved_state(),
    {
        proof {
            lemma_recording_leaves_the_saved_state(self@, edit@);
        }
        let ghost before = self@;
        if self.redo.len() > 0 {
            self.redo.clear();
            let depth: usize = self.dropped + self.undo.len();
            let lost = match self.saved_depth {
                Some(d) => d > depth,
                None => false,
            };
            if lost {
                self.saved_depth = None;
            }
        }
        assert(self@.redo =~= Seq::empty());
        assert(self@ == before.without_redo());
        if self.open {
            let ghost base = self@;
            let last: usize = self.undo.len() - 1;
            assert(base.undo.last() == self.undo@[last as int]@);
            let mut top = self.undo.pop().unwrap();
            if merge(&mut top, &edit) {
                self.undo.push(top);
                assert(self@.undo =~= base.undo.drop_last().push(merged(base.undo.last(), edit@)->0));
                return;
            }
            self.undo.push(top);
            assert(self@.undo =~= base.undo);
        }
        let ghost base = self@;
        self.open = !contains_char(edit.inserted.as_str(), '\n');
        let ghost added = edit@;
        self.undo.push(edit);
        assert(self@.undo =~= base.undo.push(added));
        if self.undo.len() > MAX_UNDO_STEPS {
            let excess: usize = self.undo.len() - MAX_UNDO_STEPS;
            let kept = self.undo.split_off(excess);
            self.undo = kept;
            self.dropped = self.dropped + excess;
        }
        assert(self@.undo =~= base.pushed(added).undo);
    }

    /// Update the cursor position replayed by redo for the edit just recorded.
    /// Used by operations (table row moves, renumbering) that place the cursor
    /// somewhere other than the end of the inserted text after the edit.
    pub fn set_last_cursor_after(&mut self, cursor: usize)
        ensures
            old(self)@.undo.len() == 0 ==> final(self)@ == old(self)@,
            old(self)@.undo.len() > 0 ==> final(self)@ == (HistoryView {
                undo: old(self)@.undo.drop_last().push(
                    (EditView { cursor_after: cursor as int, ..old(self)@.undo.last() }),
                ),
                ..old(self)@
            }),
            old(self)@.wf() ==> final(self)@.wf(),
    {
        let ghost before = self@;
        match self.undo.pop() {
            Some(mut top) => {
                top.cursor_after = cursor;
                self.undo.push(top);
                assert(self@.undo =~= before.undo.drop_last().push(
                    EditView { cursor_after: cursor as int, ..before.undo.last() },
                ));
            },
            None => {},
        }
    }

    /// Pop the most recent edit for undoing; moves it to the redo stack.
    pub fn undo(&mut self) -> (edit: Option<Edit>)
        ensures
            match edit {
                Some(e) => old(self)@.undo.len() > 0 && e@ == old(self)@.undo.last() && final(self)@
                    == old(self)@.undone(),
                None => old(self)@.undo.len() == 0 && final(self)@ == old(self)@,
            },
            old(self)@.wf() ==> final(self)@.wf(),
    {
        let ghost before = self@;
        match self.undo.pop() {
            Some(edit) => {
                self.open = false;
                let copy = copy_edit(&edit);
                self.redo.push(copy);
                assert(self@.undo =~= before.undo.drop_last());
                assert(self@.redo =~= before.redo.push(before.undo.last()));
                Some(edit)
            },
            None => None,
        }
    }

    /// Pop the most recent undone edit for redoing; moves it back to undo.
    pub fn redo(&mut self) -> (edit: Option<Edit>)
        ensures
            match edit {
                Some(e) => old(self)@.redo.len() > 0 && e@ == old(self)@.redo.last() && final(self)@
                    == old(self)@.redone(),
                None => old(self)@.redo.len() == 0 && final(self)@ == old(self)@,
            },
            old(self)@.wf() ==> final(self)@.wf(),
    {
        let ghost before = self@;
        match self.redo.pop() {
            Some(edit) => {
                self.open = false;
                let copy = copy_edit(&edit);
                self.undo.push(copy);
                assert(self@.redo =~= before.redo.drop_last());
                assert(self@.undo =~= before.undo.push(before.redo.last()));
                Some(edit)
            },
            None => None,
        }
    }
}

fn copy_edit(e: &Edit) -> (copy: Edit)
    ensures
        copy@ == e@,
{
    Edit {
        start: e.start,
        removed: e.removed.clone(),
        inserted: e.inserted.clone(),
        cursor_before: e.cursor_before,
        cursor_after: e.cursor_after,
    }
}

/// Whether `a + b` is `sum`.
fn adds_up(a: usize, b: usize, sum: usize) -> (equal: bool)
    ensures
        equal == (a + b == sum),
{
    a <= sum && sum - a == b
}

/// Try to fold `next` into `top` (same run). Returns true on success.
fn merge(top: &mut Edit, next: &Edit) -> (done: bool)
    ensures
        done == (merged(old(top)@, next@) is Some),
        done ==> final(top)@ == merged(old(top)@, next@)->0,
        !done ==> final(top)@ == old(top)@,
{
    let both_insert = top.removed.as_str().is_empty() && next.removed.as_str().is_empty();
    let both_delete = top.inserted.as_str().is_empty() && next.inserted.as_str().is_empty();
    // Typing: contiguous inserts, and don't merge across a newline.
    if both_insert && !contains_char(next.inserted.as_str(), '\n') && adds_up(
        top.start,
        byte_length(top.inserted.as_str()),
        next.start,
    ) {
        top.inserted.append(next.inserted.as_str());
        top.cursor_after = next.cursor_after;
        return true;
    }
    // Backspace: deletions extending leftward.
    if both_delete && adds_up(next.start, byte_length(next.removed.as_str()), top.start) {
        let mut removed = next.removed.clone();
        removed.append(top.removed.as_str());
        top.removed = removed;
        top.start = next.start;
        top.cursor_after = next.cursor_after;
        return true;
    }
    // Forward delete: deletions at the same position.
    if both_delete && next.start == top.start {
        top.removed.append(next.removed.as_str());
        top.cursor_after = next.cursor_after;
        return true;
    }
    false
}

} // verus!
