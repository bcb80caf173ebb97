//! Leaving the terminal as it was found: every step is taken, whatever came of those before
//! it, and the first error is what is reported.

use vstd::prelude::*;

use crate::strings::opt_view;

verus! {

/// A step of leaving the terminal.
#[derive(Clone, Copy, Debug, PartialEq, Eq, Structural)]
pub enum RestoreStep {
    PopKeyboardFlags,
    DisableMouse,
    DisablePaste,
    ResetCursor,
    LeaveScreen,
    DisableRaw,
}

impl RestoreStep {
    /// The steps, in the order in which they are taken.
    pub open spec fn order() -> Seq<RestoreStep> {
        seq![
            RestoreStep::PopKeyboardFlags,
            RestoreStep::DisableMouse,
            RestoreStep::DisablePaste,
            RestoreStep::ResetCursor,
            RestoreStep::LeaveScreen,
            RestoreStep::DisableRaw,
        ]
    }
}

/// How far the terminal is left, and the first error on the way.
pub struct Restore {
    taken: usize,
    first_error: Option<String>,
}

/// What a [`Restore`] holds.
#[verifier::ext_equal]
pub struct RestoreView {
    /// What came of the steps that were taken.
    pub taken: int,
    pub first_error: Option<Seq<char>>,
}

impl View for Restore {
    type V = RestoreView;

    closed spec fn view(&self) -> RestoreView {
        RestoreView { taken: self.taken as int, first_error: opt_view(self.first_error) }
    }
}

/// The first error among the first `n` outcomes.
pub open spec fn first_error(outcomes: Seq<Option<Seq<char>>>, n: int) -> Option<Seq<char>>
    decreases n,
{
    if n <= 0 {
        None
    } else {
        match first_error(outcomes, n - 1) {
            Some(e) => Some(e),
            None => outcomes[n - 1],
        }
    }
}

impl RestoreView {
    /// The step to take now, until all are taken.
    pub open spec fn step(self) -> Option<RestoreStep> {
        if 0 <= self.taken < RestoreStep::order().len() {
            Some(RestoreStep::order()[self.taken])
        } else {
            None
        }
    }

    /// The step was taken; an error counts where it is the first.
    pub open spec fn after(self, failed: Option<Seq<char>>) -> RestoreView {
        if self.step() is None {
            self
        } else {
            RestoreView {
                taken: self.taken + 1,
                first_error: match self.first_error {
                    Some(e) => Some(e),
                    None => failed,
                },
            }
        }
    }

    /// The first `n` steps were taken, with the outcomes given.
    pub open spec fn run(outcomes: Seq<Option<Seq<char>>>, n: int) -> RestoreView
        decreases n,
    {
        if n <= 0 {
            RestoreView { taken: 0, first_error: None }
        } else {
            RestoreView::run(outcomes, n - 1).after(outcomes[n - 1])
        }
    }
}

/// Whatever comes of the steps, all of them are taken, in order, and the first error is the
/// one that is kept.
pub proof fn lemma_every_step_is_taken(outcomes: Seq<Option<Seq<char>>>, n: int)
    requires
        0 <= n <= RestoreStep::order().len(),
        n <= outcomes.len(),
    ensures
        RestoreView::run(outcomes, n).taken == n,
        RestoreView::run(outcomes, n).first_error == first_error(outcomes, n),
        n < RestoreStep::order().len() ==> RestoreView::run(outcomes, n).step() == Some(
            RestoreStep::order()[n],
        ),
        n == RestoreStep::order().len() ==> RestoreView::run(outcomes, n).step() is None,
    decreases n,
{
    if n > 0 {
        lemma_every_step_is_taken(outcomes, n - 1);
    }
}

/// Keep an error where it is the first.
pub fn remember_error(first: &mut Option<String>, result: Result<(), String>)
    ensures
        opt_view(*final(first)) == match opt_view(*old(first)) {
            Some(e) => Some(e),
            None => match result {
                Ok(_) => None,
                Err(e) => Some(e@),
            },
        },
{
    match result {
        Ok(_) => {},
        Err(e) => {
            if first.is_none() {
                *first = Some(e);
            }
        },
    }
}

impl Restore {
    /// Begin to leave the terminal.
    pub fn begin() -> (r: Self)
        ensures
            r@ == (RestoreView { taken: 0, first_error: None }),
    {
        Restore { taken: 0, first_error: None }
    }

    /// The step to take now, until all are taken.
    pub fn step(&self) -> (step: Option<RestoreStep>)
        ensures
            step == self@.step(),
    {
        match self.taken {
            0 => Some(RestoreStep::PopKeyboardFlags),
            1 => Some(RestoreStep::DisableMouse),
            2 => Some(RestoreStep::DisablePaste),
            3 => Some(RestoreStep::ResetCursor),
            4 => Some(RestoreStep::LeaveScreen),
            5 => Some(RestoreStep::DisableRaw),
            _ => None,
        }
    }

    /// The step was taken.
    pub fn done(&mut self, result: Result<(), String>)
        ensures
            final(self)@ == old(self)@.after(
                match result {
                    Ok(_) => None,
                    Err(e) => Some(e@),
                },
            ),
    {
        if self.step().is_some() {
            remember_error(&mut self.first_error, result);
            self.taken = self.taken + 1;
        }
    }

    /// What is reported: the first error, if there was one.
    pub fn outcome(self) -> (result: Result<(), String>)
        ensures
            match result {
                Ok(_) => self@.first_error is None,
                Err(e) => self@.first_error == Some(e@),
            },
    {
        match self.first_error {
            Some(e) => Err(e),
            None => Ok(()),
        }
    }
}

} // verus!
