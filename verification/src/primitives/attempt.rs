//! What a request for a lock is answered.
use vstd::prelude::*;

verus! {

/// The answer to one attempt at taking a lock.
#[derive(Debug, Clone, Copy, PartialEq, Eq, Structural)]
pub enum Attempt {
    /// The caller holds the lock now.
    Acquired,
    /// The lock is held; the caller has to sleep and try again once woken.
    MustWait,
}

/// How many sleepers of one queue a release wakes.
#[derive(Debug, Clone, Copy, PartialEq, Eq, Structural)]
pub enum Notify {
    /// No sleeper is woken.
    Nobody,
    /// One sleeper is woken.
    One,
    /// Every sleeper is woken.
    All,
}

} // verus!
