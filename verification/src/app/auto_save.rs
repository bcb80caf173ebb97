//! What happens by itself when the editor is idle: unsaved work is kept for recovery, and a
//! document with a file is saved.

use vstd::prelude::*;

use crate::app::files::{outcome, result_view};
use crate::app::{App, AppView, Desk, Effect, EffectView};
use crate::buffer::DiskState;
use crate::editor::EditorView;
use crate::strings::joined;

verus! {

/// Idle milliseconds after the last edit before an enabled auto-save fires.
pub const AUTO_SAVE_DELAY: u64 = 2000;

/// Milliseconds after a failure before it is tried again.
pub const AUTO_SAVE_RETRY_DELAY: u64 = 10000;

impl AppView {
    /// Whether the idle loop should tick (poll with a timeout) for auto-save.
    pub open spec fn ticks(self) -> bool {
        self.editor.doc.modified && self.prompt is None && (self.desk.recovery_written_version
            != self.editor.version || (self.desk.auto_save && self.editor.doc.path is Some))
    }

    /// Whether the document has been quiet long enough, and nothing failed just now.
    pub open spec fn idle(self) -> bool {
        (match self.editor.retry_at {
            Some(at) => at <= self.editor.now,
            None => true,
        }) && (match self.editor.last_edit {
            Some(at) => self.editor.now.saturating_sub(at) >= AUTO_SAVE_DELAY,
            None => true,
        })
    }

    /// The application at a time.
    pub open spec fn at_time(self, now: u64) -> AppView {
        self.with_editor(EditorView { now, ..self.editor })
    }

    /// The application tries again later, and says why.
    pub open spec fn postponed(self, why: Seq<char>) -> AppView {
        self.with_editor(
            EditorView {
                retry_at: Some(self.editor.now.saturating_add(AUTO_SAVE_RETRY_DELAY)),
                ..self.editor
            },
        ).say(why)
    }

    /// What is to be done by itself once unsaved work is kept.
    pub open spec fn auto_save_begun(self) -> EffectView {
        if self.desk.auto_save && self.editor.doc.path is Some {
            EffectView::CheckDiskForAutoSave
        } else {
            EffectView::Nothing
        }
    }

    /// What is to be done by itself at a time.
    #[verifier::opaque]
    pub open spec fn ticked(self, now: u64) -> (AppView, EffectView) {
        let v = self.at_time(now);
        if !v.ticks() || !v.idle() {
            (v, EffectView::Nothing)
        } else if v.desk.recovery_written_version != v.editor.version {
            (v, EffectView::WriteRecovery)
        } else {
            (v, v.auto_save_begun())
        }
    }

    /// Unsaved work is kept, or could not be.
    #[verifier::opaque]
    pub open spec fn recovery_kept(self, failed: Option<Seq<char>>) -> (AppView, EffectView) {
        match failed {
            None => {
                let v = self.with_desk(
                    Desk { recovery_written_version: self.editor.version, ..self.desk },
                );
                (v, v.auto_save_begun())
            },
            Some(e) => (self.postponed("Recovery failed: "@ + e), EffectView::Nothing),
        }
    }

    /// The state of the file is known, to save the document by itself: never over a change.
    #[verifier::opaque]
    pub open spec fn auto_checked(self, now: Result<DiskState, Seq<char>>) -> (AppView, EffectView) {
        match now {
            Ok(state) => if state != self.editor.doc.disk {
                (
                    self.postponed("Auto-save paused: file changed on disk"@),
                    EffectView::Nothing,
                )
            } else {
                (self, EffectView::AutoSave)
            },
            Err(e) => (self.postponed("Auto-save failed: "@ + e), EffectView::Nothing),
        }
    }

    /// The document was saved by itself, or could not be.
    #[verifier::opaque]
    pub open spec fn auto_saved(self, result: Result<DiskState, Seq<char>>) -> AppView {
        match result {
            Ok(state) => self.saved_as(self.written_document(state)).say("Auto-saved"@),
            Err(e) => self.postponed("Auto-save failed: "@ + e),
        }
    }
}

/// A file that changed on disk is never written by itself.
pub proof fn lemma_changes_are_never_overwritten(v: AppView, state: DiskState)
    requires
        state != v.editor.doc.disk,
    ensures
        v.auto_checked(Ok(state)).1 == EffectView::Nothing,
        v.disk_checked(Ok(state)).1 == EffectView::Nothing,
        v.auto_checked(Ok(state)).0.editor.doc == v.editor.doc,
        v.disk_checked(Ok(state)).0.editor.doc == v.editor.doc,
{
    reveal(AppView::auto_checked);
    reveal(AppView::disk_checked);
}

impl App {
    /// Set the time.
    #[verifier::spinoff_prover]
    pub fn set_clock(&mut self, now: u64)
        requires
            old(self).wf(),
        ensures
            final(self).wf(),
            final(self)@ == old(self)@.at_time(now),
    {
        proof {
            reveal(App::seen);
            reveal(App::wf);
        }
        self.editor.set_clock(now);
    }

    /// Whether the idle loop should tick (poll with a timeout) for auto-save.
    #[verifier::spinoff_prover]
    pub fn wants_tick(&self) -> (yes: bool)
        requires
            self.wf(),
        ensures
            yes == self@.ticks(),
    {
        proof {
            reveal(App::seen);
        }
        self.editor.buffer().modified() && self.prompt.is_none() && (
        self.desk.recovery_written_version != self.editor.version() || (self.desk.auto_save
            && self.editor.buffer().has_path()))
    }

    /// Whether the document has been quiet long enough.
    #[verifier::spinoff_prover]
    fn is_idle(&self) -> (yes: bool)
        requires
            self.wf(),
        ensures
            yes == self@.idle(),
    {
        proof {
            reveal(App::seen);
        }
        let now: u64 = self.editor.clock();
        let retried = match self.editor.retry_at() {
            Some(at) => at <= now,
            None => true,
        };
        let quiet = match self.editor.last_edit() {
            Some(at) => now.saturating_sub(at) >= AUTO_SAVE_DELAY,
            None => true,
        };
        retried && quiet
    }

    /// The version of the document.
    fn version(&self) -> (version: u64)
        requires
            self.wf(),
        ensures
            version == self@.editor.version,
    {
        proof {
            reveal(App::seen);
        }
        self.editor.version()
    }

    /// Try again later, and say why.
    #[verifier::spinoff_prover]
    fn postpone(&mut self, why: String)
        requires
            old(self).wf(),
        ensures
            final(self).wf(),
            final(self)@ == old(self)@.postponed(why@),
    {
        proof {
            reveal(App::seen);
            reveal(App::wf);
        }
        let later: u64 = self.editor.clock().saturating_add(AUTO_SAVE_RETRY_DELAY);
        self.editor.set_retry_at(Some(later));
        self.status = Some(why);
    }

    /// What is to be done by itself once unsaved work is kept.
    fn begin_auto_save(&self) -> (effect: Effect)
        requires
            self.wf(),
        ensures
            effect@ == self@.auto_save_begun(),
    {
        if self.desk().auto_save && self.has_path() {
            Effect::CheckDiskForAutoSave
        } else {
            Effect::Nothing
        }
    }

    /// Idle callback from the event loop: auto-save once the buffer has been
    /// quiet for [`AUTO_SAVE_DELAY`]. Only named buffers save automatically —
    /// popping a "save as" prompt mid-thought would be hostile.
    #[verifier::spinoff_prover]
    pub fn tick(&mut self, now: u64) -> (effect: Effect)
        requires
            old(self).wf(),
        ensures
            final(self).wf(),
            (final(self)@, effect@) == old(self)@.ticked(now),
    {
        proof {
            reveal(AppView::ticked);
        }
        self.set_clock(now);
        if !self.wants_tick() || !self.is_idle() {
            return Effect::Nothing;
        }
        if self.desk().recovery_written_version != self.version() {
            return Effect::WriteRecovery;
        }
        self.begin_auto_save()
    }

    /// Keep that the version of the document is kept for recovery.
    #[verifier::spinoff_prover]
    fn set_recovery_version(&mut self)
        requires
            old(self).wf(),
        ensures
            final(self).wf(),
            final(self)@ == old(self)@.with_desk(
                (Desk {
                    recovery_written_version: old(self)@.editor.version,
                    ..old(self)@.desk
                }),
            ),
    {
        proof {
            reveal(App::seen);
            reveal(App::wf);
        }
        self.desk.recovery_written_version = self.editor.version();
    }

    /// What came of keeping unsaved work.
    #[verifier::spinoff_prover]
    pub fn recovery_written(&mut self, result: Result<(), String>) -> (effect: Effect)
        requires
            old(self).wf(),
        ensures
            final(self).wf(),
            (final(self)@, effect@) == old(self)@.recovery_kept(outcome(result)),
    {
        proof {
            reveal(AppView::recovery_kept);
        }
        match result {
            Ok(_) => {
                self.set_recovery_version();
                self.begin_auto_save()
            },
            Err(e) => {
                self.postpone(joined("Recovery failed: ", e.as_str()));
                Effect::Nothing
            },
        }
    }

    /// The state of the file, looked at to save the document by itself.
    #[verifier::spinoff_prover]
    pub fn auto_checked(&mut self, now: Result<DiskState, String>) -> (effect: Effect)
        requires
            old(self).wf(),
            old(self)@.editor.doc.path is Some,
        ensures
            final(self).wf(),
            (final(self)@, effect@) == old(self)@.auto_checked(result_view(now)),
    {
        proof {
            reveal(AppView::auto_checked);
        }
        match now {
            Ok(state) => {
                if self.differs_on_disk(state) {
                    self.postpone("Auto-save paused: file changed on disk".to_owned());
                    Effect::Nothing
                } else {
                    Effect::AutoSave
                }
            },
            Err(e) => {
                self.postpone(joined("Auto-save failed: ", e.as_str()));
                Effect::Nothing
            },
        }
    }

    /// What came of saving the document by itself.
    #[verifier::spinoff_prover]
    pub fn auto_written(&mut self, result: Result<DiskState, String>)
        requires
            old(self).wf(),
        ensures
            final(self).wf(),
            final(self)@ == old(self)@.auto_saved(result_view(result)),
    {
        proof {
            reveal(AppView::auto_saved);
        }
        match result {
            Ok(state) => {
                let mut buffer = self.buffer_copy();
                buffer.saved(state);
                self.mark_saved(buffer);
                self.set_status("Auto-saved");
            },
            Err(e) => self.postpone(joined("Auto-save failed: ", e.as_str())),
        }
    }
}

} // verus!
