//! A value behind a spin lock.
use crate::primitives::attempt::Attempt;
use vstd::prelude::*;

verus! {

/// A thread has the value.
const UPDATING: usize = 0;

/// Nobody has the value.
const AVAILABLE: usize = 1;

/// A value behind a spin lock.
pub struct SpinLockCell<T> {
    state: usize,
    val: T,
}

impl<T> View for SpinLockCell<T> {
    type V = T;

    closed spec fn view(&self) -> T {
        self.val
    }
}

impl<T> SpinLockCell<T> {
    /// A thread has the value.
    pub closed spec fn locked(&self) -> bool {
        self.state != AVAILABLE
    }

    /// A cell that nobody has locked.
    pub fn new(val: T) -> (cell: SpinLockCell<T>)
        ensures
            cell@ == val,
            !cell.locked(),
    {
        SpinLockCell { val, state: AVAILABLE }
    }

    /// The value.
    #[inline]
    pub fn get_ref(&self) -> (value: &T)
        ensures
            *value == self@,
    {
        &self.val
    }

    /// Access to the value.
    #[inline]
    pub fn get_mut_ref(&mut self) -> (value: &mut T)
        ensures
            *value == old(self)@,
            final(self)@ == *final(value),
            final(self).locked() == old(self).locked(),
    {
        &mut self.val
    }

    /// Locks the cell if nobody has; otherwise the caller tries again after a
    /// wait.
    #[inline]
    pub fn lock(&mut self) -> (r: Attempt)
        ensures
            r is Acquired == !old(self).locked(),
            final(self).locked(),
            final(self)@ == old(self)@,
    {
        if self.state == AVAILABLE {
            self.state = UPDATING;
            Attempt::Acquired
        } else {
            Attempt::MustWait
        }
    }

    /// Gives the cell free.
    #[inline]
    pub fn release(&mut self)
        ensures
            !final(self).locked(),
            final(self)@ == old(self)@,
    {
        self.state = AVAILABLE;
    }
}

} // verus!
