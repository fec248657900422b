//! The activation flag that the sub-loops of one worker share.

use vstd::prelude::*;

verus! {

/// A boolean that starts out set and can only ever be cleared.
///
/// The sub-loops of a worker agree on shutdown through it: one of them clears
/// it, the others look at it before they wait for their next message. Share it
/// behind a lock; a reader that looks after `inactivate` has returned sees it
/// cleared.
#[derive(Debug)]
pub struct ClientState {
    active: bool,
}

impl ClientState {
    /// Whether the flag is still set.
    pub closed spec fn active(&self) -> bool {
        self.active
    }

    /// The flag as `inactivate` leaves it.
    pub closed spec fn inactivated(self) -> ClientState {
        ClientState { active: false }
    }

    /// A fresh flag, set.
    pub fn new() -> (state: ClientState)
        ensures
            state.active(),
    {
        ClientState { active: true }
    }

    /// Reads the flag without changing it.
    pub fn is_active(&self) -> (active: bool)
        ensures
            active == self.active(),
    {
        self.active
    }

    /// Clears the flag. It stays cleared.
    pub fn inactivate(&mut self)
        ensures
            *final(self) == old(self).inactivated(),
            !final(self).active(),
    {
        self.active = false;
    }

    /// Clearing the flag a second time changes nothing, and a cleared flag
    /// never reads as set, whatever it held before.
    pub proof fn lemma_inactivate_idempotent(self)
        ensures
            !self.inactivated().active(),
            self.inactivated().inactivated() == self.inactivated(),
            !self.active() ==> self.inactivated() == self,
    {
    }
}

} // verus!
