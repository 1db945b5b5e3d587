//! Stack-overflow guard: turns a refused stack growth into a diversion to the
//! unwind path, deferred while a resource-release handler is running.

use crate::stacklet::GrowError;
use vstd::prelude::*;

verus! {

/// What the guard does with the outcome of a growth request.
#[derive(Clone, Copy, Debug, PartialEq, Eq, Structural)]
pub enum GuardAction {
    /// The growth was granted; the task goes on.
    Proceed,
    /// Divert the task into unwinding now.
    Divert,
    /// A release handler is running: the diversion waits until it returns.
    Defer,
}

/// Per-task guard state.
#[derive(Clone, Copy, Debug, PartialEq, Eq, Structural)]
pub struct OverflowGuard {
    /// Depth of nested resource-release handlers being executed.
    pub release_depth: u32,
    /// A diversion is owed once the outermost release handler returns.
    pub diversion_pending: bool,
}

impl OverflowGuard {
    /// No handler running and nothing owed.
    pub open spec fn is_clear(&self) -> bool {
        self.release_depth == 0 && !self.diversion_pending
    }

    pub fn new() -> (r: OverflowGuard)
        ensures
            r.is_clear(),
    {
        OverflowGuard { release_depth: 0, diversion_pending: false }
    }

    /// Reacts to the outcome of a growth request. A diversion never starts
    /// inside a release handler.
    pub fn on_growth(&mut self, outcome: Result<usize, GrowError>) -> (r: GuardAction)
        ensures
            outcome is Ok ==> r == GuardAction::Proceed && *final(self) == *old(self),
            outcome is Err && old(self).release_depth == 0 ==> r == GuardAction::Divert && *final(self)
                == *old(self),
            outcome is Err && old(self).release_depth > 0 ==> r == GuardAction::Defer && *final(self) == (
            OverflowGuard { diversion_pending: true, ..*old(self) }),
            r is Divert ==> final(self).release_depth == 0,
    {
        match outcome {
            Ok(_) => GuardAction::Proceed,
            Err(_) => {
                if self.release_depth == 0 {
                    GuardAction::Divert
                } else {
                    self.diversion_pending = true;
                    GuardAction::Defer
                }
            },
        }
    }

    /// A release handler starts.
    pub fn enter_release_handler(&mut self)
        requires
            old(self).release_depth < u32::MAX,
        ensures
            *final(self) == (OverflowGuard { release_depth: (old(self).release_depth + 1) as u32, ..*old(self) }),
    {
        self.release_depth = self.release_depth + 1;
    }

    /// A release handler returns. Says whether the owed diversion happens
    /// now, which is when the outermost handler returns.
    pub fn exit_release_handler(&mut self) -> (divert: bool)
        requires
            old(self).release_depth > 0,
        ensures
            final(self).release_depth == old(self).release_depth - 1,
            divert == (final(self).release_depth == 0 && old(self).diversion_pending),
            final(self).diversion_pending == (old(self).diversion_pending && !divert),
    {
        self.release_depth = self.release_depth - 1;
        if self.release_depth == 0 && self.diversion_pending {
            self.diversion_pending = false;
            true
        } else {
            false
        }
    }
}

} // verus!
