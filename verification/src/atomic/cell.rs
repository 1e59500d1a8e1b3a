//! A cell that holds one value behind a mutex.
use crate::mutex::guards::{MutexG, WatchGuardMut, WatchGuardRef};
use crate::mutex::mutex;
use crate::mutex::mutex::MutexWake;
use vstd::prelude::*;

verus! {

/// A cell, which its handles share.
pub struct AtomicCell<T> {
    inner: MutexG<T>,
    ref_count: usize,
}

impl<T> View for AtomicCell<T> {
    type V = T;

    closed spec fn view(&self) -> T {
        self.inner@
    }
}

impl<T> AtomicCell<T> {
    /// Handles to the cell.
    pub closed spec fn refs(&self) -> nat {
        self.ref_count as nat
    }

    /// The mutex.
    pub closed spec fn mutex(&self) -> mutex::MutexView {
        self.inner.mutex()
    }

    /// A cell that holds `val`, with a free mutex.
    pub fn new(val: T) -> (made: Self)
        ensures
            made@ == val,
            made.refs() == 1,
            mutex::decode(made.mutex().word).idle(),
    {
        AtomicCell { inner: MutexG::new(val), ref_count: 1 }
    }

    /// Takes the mutex in shared mode and hands out a guard; where a writer
    /// holds it, the caller has to sleep.
    pub fn get(&mut self) -> (guard: Option<WatchGuardRef<'_, T>>)
        requires
            !mutex::decode(old(self).mutex().word).writer ==> mutex::decode(
                old(self).mutex().word,
            ).readers + 1 < mutex::writer_mark(),
        ensures
            final(self).refs() == old(self).refs(),
            guard is Some == !mutex::decode(old(self).mutex().word).writer,
            final(self)@ == old(self)@,
            guard is None ==> old(self).mutex().same_but_word(final(self).mutex())
                && mutex::decode(final(self).mutex().word) == (mutex::WordView {
                readers_parked: true,
                ..mutex::decode(old(self).mutex().word)
            }),
            guard matches Some(g) ==> {
                &&& *g.data == old(self)@
                &&& old(self).mutex().same_but_word(g.lock@)
                &&& mutex::decode(g.lock@.word) == (mutex::WordView {
                    readers: mutex::decode(old(self).mutex().word).readers + 1,
                    ..mutex::decode(old(self).mutex().word)
                })
                &&& final(self).mutex() == final(g.lock)@
            },
    {
        self.inner.lock_shared()
    }

    /// Takes the mutex exclusively and hands out a guard; where somebody holds
    /// it, the caller has to sleep.
    pub fn get_mut(&mut self) -> (guard: Option<WatchGuardMut<'_, T>>)
        ensures
            final(self).refs() == old(self).refs(),
            guard is Some == !mutex::decode(old(self).mutex().word).held(),
            guard is None ==> final(self)@ == old(self)@ && old(self).mutex().same_but_word(
                final(self).mutex(),
            ) && mutex::decode(final(self).mutex().word) == (mutex::WordView {
                writers_parked: true,
                ..mutex::decode(old(self).mutex().word)
            }),
            guard matches Some(g) ==> {
                &&& *g.data == old(self)@
                &&& final(self)@ == *final(g.data)
                &&& old(self).mutex().same_but_word(g.lock@)
                &&& mutex::decode(g.lock@.word) == (mutex::WordView {
                    writer: true,
                    ..mutex::decode(old(self).mutex().word)
                })
                &&& final(self).mutex() == final(g.lock)@
            },
    {
        self.inner.lock_exclusive()
    }

    /// The value, out of the cell.
    pub fn into_inner(self) -> (value: T)
        ensures
            value == self@,
    {
        self.inner.into_inner()
    }

    /// A copy of the value, read without the mutex.
    pub fn load(&self) -> (value: T) where T: Copy
        ensures
            value == self@,
    {
        *self.inner.peek()
    }

    /// Replaces the value; tells whom giving the mutex back wakes. Nobody holds
    /// the mutex.
    pub fn store(&mut self, val: T) -> (wake: MutexWake)
        requires
            !mutex::decode(old(self).mutex().word).held(),
        ensures
            final(self)@ == val,
            final(self).refs() == old(self).refs(),
            old(self).mutex().passed_exclusive(final(self).mutex()),
            wake == old(self).mutex().left_by_exclusive().1,
    {
        let (_, wake): (T, MutexWake) = self.swap(val);
        wake
    }

    /// Replaces the value and returns the one that was there; tells whom giving
    /// the mutex back wakes. Nobody holds the mutex.
    pub fn swap(&mut self, val: T) -> (r: (T, MutexWake))
        requires
            !mutex::decode(old(self).mutex().word).held(),
        ensures
            r.0 == old(self)@,
            final(self)@ == val,
            final(self).refs() == old(self).refs(),
            old(self).mutex().passed_exclusive(final(self).mutex()),
            r.1 == old(self).mutex().left_by_exclusive().1,
    {
        match self.get_mut() {
            Some(mut guard) => {
                let mut val: T = val;
                std::mem::swap(guard.deref_mut(), &mut val);
                let wake: MutexWake = guard.unlock();
                (val, wake)
            },
            None => vstd::pervasive::unreached(),
        }
    }

    /// Replaces the value if it equals `current`, returns the one that was there,
    /// and tells whom giving the mutex back wakes; otherwise hands out a guard
    /// for the value that is there. Nobody holds the mutex.
    pub fn compare_exchange(&mut self, current: T, new: T) -> (r: Result<
        (T, MutexWake),
        WatchGuardMut<'_, T>,
    >) where T: Copy + PartialEq
        requires
            vstd::laws_eq::obeys_concrete_eq::<T>(),
            !mutex::decode(old(self).mutex().word).held(),
        ensures
            r is Ok == (old(self)@ == current),
            final(self).refs() == old(self).refs(),
            r matches Ok(done) ==> {
                &&& done.0 == current
                &&& final(self)@ == new
                &&& old(self).mutex().passed_exclusive(final(self).mutex())
                &&& done.1 == old(self).mutex().left_by_exclusive().1
            },
            r matches Err(g) ==> {
                &&& *g.data == old(self)@
                &&& final(self)@ == *final(g.data)
                &&& old(self).mutex().same_but_word(g.lock@)
                &&& mutex::decode(g.lock@.word) == (mutex::WordView {
                    writer: true,
                    ..mutex::decode(old(self).mutex().word)
                })
                &&& final(self).mutex() == final(g.lock)@
            },
    {
        proof {
            reveal(vstd::laws_eq::obeys_concrete_eq);
        }
        match self.get_mut() {
            Some(mut guard) => {
                if *guard.deref() == current {
                    let mut val: T = new;
                    std::mem::swap(guard.deref_mut(), &mut val);
                    let wake: MutexWake = guard.unlock();
                    Ok((val, wake))
                } else {
                    Err(guard)
                }
            },
            None => vstd::pervasive::unreached(),
        }
    }

    /// One more handle shares the cell.
    pub fn clone_ref(&mut self)
        requires
            old(self).refs() < usize::MAX,
        ensures
            final(self)@ == old(self)@,
            final(self).mutex() == old(self).mutex(),
            final(self).refs() == old(self).refs() + 1,
    {
        self.ref_count = self.ref_count + 1;
    }

    /// Gives one handle up; tells whether it was the last one.
    pub fn drop_ref(&mut self) -> (last: bool)
        requires
            old(self).refs() > 0,
        ensures
            final(self)@ == old(self)@,
            final(self).mutex() == old(self).mutex(),
            final(self).refs() == old(self).refs() - 1,
            last == (old(self).refs() == 1),
    {
        self.ref_count = self.ref_count - 1;
        self.ref_count == 0
    }
}

} // verus!
