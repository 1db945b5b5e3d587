//! A lock that masks one interrupt while held. An interrupt raised while the
//! lock is held is kept pending and is served when the lock is released;
//! back-to-back events are counted, so none is lost.

use vstd::prelude::*;

verus! {

pub struct IrqMaskLock {
    /// The lock is held, so the interrupt is masked.
    pub held: bool,
    /// Events raised while masked and not yet served.
    pub pending: u32,
}

impl IrqMaskLock {
    /// Nothing is pending while the lock is free.
    pub open spec fn wf(&self) -> bool {
        !self.held ==> self.pending == 0
    }

    pub fn new() -> (r: IrqMaskLock)
        ensures
            r.wf(),
            !r.held,
    {
        IrqMaskLock { held: false, pending: 0 }
    }

    /// Whether the interrupt is masked now.
    pub fn is_masked(&self) -> (r: bool)
        ensures
            r == self.held,
    {
        self.held
    }

    /// Takes the lock, masking the interrupt. Refused when already held.
    pub fn acquire(&mut self) -> (r: bool)
        requires
            old(self).wf(),
        ensures
            final(self).wf(),
            r == !old(self).held,
            final(self).held,
            final(self).pending == old(self).pending,
    {
        if self.held {
            false
        } else {
            self.held = true;
            true
        }
    }

    /// The interrupt fires. Returns whether its handler runs immediately;
    /// otherwise the event is kept pending.
    pub fn raise(&mut self) -> (run_now: bool)
        requires
            old(self).wf(),
            old(self).pending < u32::MAX,
        ensures
            final(self).wf(),
            run_now == !old(self).held,
            final(self).held == old(self).held,
            final(self).pending == old(self).pending + if old(self).held { 1int } else { 0int },
    {
        if self.held {
            self.pending = self.pending + 1;
            false
        } else {
            true
        }
    }

    /// Releases the lock, unmasking the interrupt, and returns how many
    /// pending events the handler must now serve.
    pub fn release(&mut self) -> (served: u32)
        requires
            old(self).wf(),
            old(self).held,
        ensures
            final(self).wf(),
            !final(self).held,
            served == old(self).pending,
    {
        let n = self.pending;
        self.held = false;
        self.pending = 0;
        n
    }
}

} // verus!
