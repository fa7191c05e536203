//! The lock that lets multicast packets in while wikis are found on the local
//! network.

use vstd::prelude::*;

verus! {

/// What is to be done about the lock.
#[derive(Clone, Copy, PartialEq, Eq, Structural)]
pub enum LockStep {
    Nothing,
    Acquire,
    Release,
}

/// Whether the lock is held.
pub struct MulticastLock {
    pub held: bool,
}

impl MulticastLock {
    /// What is to be done so that the lock is held: nothing, where it is.
    pub fn acquire_lock(&self) -> (r: LockStep)
        ensures
            r == if self.held {
                LockStep::Nothing
            } else {
                LockStep::Acquire
            },
    {
        if self.held {
            LockStep::Nothing
        } else {
            LockStep::Acquire
        }
    }

    /// The lock was tried for. It is held where that succeeded.
    pub fn acquired(&mut self, success: bool)
        ensures
            final(self).held == (old(self).held || success),
    {
        if success {
            self.held = true;
        }
    }

    /// Gives the lock up, and says what is to be done: nothing where it was not
    /// held, or is not held by the system any longer.
    pub fn release_lock(&mut self, held_by_system: bool) -> (r: LockStep)
        ensures
            !final(self).held,
            r == if old(self).held && held_by_system {
                LockStep::Release
            } else {
                LockStep::Nothing
            },
    {
        let was: bool = self.held;
        self.held = false;
        if was && held_by_system {
            LockStep::Release
        } else {
            LockStep::Nothing
        }
    }
}

} // verus!
