//! Guards that stand for holding a [`Mutex`], and a value behind one.
//!
//! A guard gives its mode back by `unlock`, which hands on whom that wakes.
use crate::mutex::mutex;
use crate::mutex::mutex::{Mutex, MutexWake};
use crate::primitives::attempt::Attempt;
use vstd::prelude::*;
use vstd::std_specs::cmp::PartialEqSpec;

verus! {

/// Access to a value whose mutex is held exclusively.
#[must_use]
pub struct WatchGuardMut<'a, T> {
    pub data: &'a mut T,
    pub lock: &'a mut Mutex,
}

impl<'a, T> WatchGuardMut<'a, T> {
    /// A guard for `data`, of which `lock` is the mutex.
    pub fn new(data: &'a mut T, lock: &'a mut Mutex) -> (guard: Self)
        ensures
            *guard.data == *old(data),
            *guard.lock == *old(lock),
            *final(data) == *final(guard.data),
            *final(lock) == *final(guard.lock),
    {
        WatchGuardMut { data, lock }
    }

    /// Whether the mutex is held exclusively.
    pub fn is_locked(&self) -> (locked: bool)
        ensures
            locked == mutex::decode(old(self.lock)@.word).writer,
    {
        self.lock.is_locked_exclusive()
    }

    /// The value.
    pub fn deref(&self) -> (value: &T)
        ensures
            *value == *old(self.data),
    {
        &*self.data
    }

    /// Access to the value.
    pub fn deref_mut(&mut self) -> (value: &mut T)
        ensures
            *value == *old(self).data,
            *final(self).data == *final(value),
            *final(final(self).data) == *final(old(self).data),
            *final(self).lock == *old(self).lock,
            *final(final(self).lock) == *final(old(self).lock),
    {
        &mut *self.data
    }

    /// Whether the value equals `other`.
    pub fn eq<U>(&self, other: &U) -> (equal: bool) where T: PartialEq<U>
        ensures
            <T as PartialEqSpec<U>>::obeys_eq_spec() ==> equal == (
                *old(self.data)).eq_spec(other),
    {
        *self.data == *other
    }

    /// Gives the mutex back; tells whom that wakes.
    pub fn unlock(self) -> (wake: MutexWake)
        requires
            mutex::decode(old(self.lock)@.word).writer,
        ensures
            *final(self.data) == *old(self.data),
            wake == mutex::released_exclusive(mutex::decode(old(self.lock)@.word)).1,
            old(self.lock)@.after_release(
                final(self.lock)@,
                mutex::released_exclusive(mutex::decode(old(self.lock)@.word)).0,
                wake,
            ),
    {
        self.lock.unlock_exclusive()
    }
}

/// Access to a value whose mutex is held.
#[must_use]
pub struct WatchGuard<'a, T> {
    pub data: &'a mut T,
    pub lock: &'a mut Mutex,
}

impl<'a, T> WatchGuard<'a, T> {
    /// A guard for `data`, of which `lock` is the mutex.
    pub fn new(data: &'a mut T, lock: &'a mut Mutex) -> (guard: Self)
        ensures
            *guard.data == *old(data),
            *guard.lock == *old(lock),
            *final(data) == *final(guard.data),
            *final(lock) == *final(guard.lock),
    {
        WatchGuard { data, lock }
    }

    /// Whether the mutex is held in any mode.
    pub fn is_locked(&self) -> (locked: bool)
        ensures
            locked == mutex::decode(old(self.lock)@.word).held(),
    {
        self.lock.is_locked()
    }

    /// The value.
    pub fn deref(&self) -> (value: &T)
        ensures
            *value == *old(self.data),
    {
        &*self.data
    }

    /// Access to the value.
    pub fn deref_mut(&mut self) -> (value: &mut T)
        ensures
            *value == *old(self).data,
            *final(self).data == *final(value),
            *final(final(self).data) == *final(old(self).data),
            *final(self).lock == *old(self).lock,
            *final(final(self).lock) == *final(old(self).lock),
    {
        &mut *self.data
    }

    /// Gives the mutex back; tells whom that wakes.
    pub fn unlock(self) -> (wake: MutexWake)
        requires
            mutex::decode(old(self.lock)@.word).writer,
        ensures
            *final(self.data) == *old(self.data),
            wake == mutex::released_exclusive(mutex::decode(old(self.lock)@.word)).1,
            old(self.lock)@.after_release(
                final(self.lock)@,
                mutex::released_exclusive(mutex::decode(old(self.lock)@.word)).0,
                wake,
            ),
    {
        self.lock.unlock_exclusive()
    }
}

/// A look at a value whose mutex is held in shared mode.
#[must_use]
pub struct WatchGuardRef<'a, T> {
    pub data: &'a T,
    pub lock: &'a mut Mutex,
}

impl<'a, T> WatchGuardRef<'a, T> {
    /// A guard for `data`, of which `lock` is the mutex.
    pub fn new(data: &'a T, lock: &'a mut Mutex) -> (guard: Self)
        ensures
            *guard.data == *data,
            *guard.lock == *old(lock),
            *final(lock) == *final(guard.lock),
    {
        WatchGuardRef { data, lock }
    }

    /// Whether the mutex is held exclusively.
    pub fn is_locked(&self) -> (locked: bool)
        ensures
            locked == mutex::decode(old(self.lock)@.word).writer,
    {
        self.lock.is_locked_exclusive()
    }

    /// The value.
    pub fn deref(&self) -> (value: &T)
        ensures
            *value == *self.data,
    {
        self.data
    }

    /// Whether the value equals `other`.
    pub fn eq<U>(&self, other: &U) -> (equal: bool) where T: PartialEq<U>
        ensures
            <T as PartialEqSpec<U>>::obeys_eq_spec() ==> equal == (*self.data).eq_spec(other),
    {
        *self.data == *other
    }

    /// Gives the mutex back; tells whom that wakes.
    pub fn unlock(self) -> (wake: MutexWake)
        requires
            mutex::decode(old(self.lock)@.word).readers > 0,
        ensures
            wake == mutex::released_shared(mutex::decode(old(self.lock)@.word)).1,
            old(self.lock)@.after_release(
                final(self.lock)@,
                mutex::released_shared(mutex::decode(old(self.lock)@.word)).0,
                wake,
            ),
    {
        self.lock.unlock_shared()
    }
}

/// A value behind a mutex.
pub struct MutexG<T> {
    lock: Mutex,
    data: T,
}

impl<T> View for MutexG<T> {
    type V = T;

    closed spec fn view(&self) -> T {
        self.data
    }
}

impl<T> MutexG<T> {
    /// The mutex.
    pub closed spec fn mutex(&self) -> mutex::MutexView {
        self.lock@
    }

    /// `data` behind a free mutex.
    pub fn new(data: T) -> (guarded: Self)
        ensures
            guarded@ == data,
            mutex::decode(guarded.mutex().word).idle(),
    {
        MutexG { lock: Mutex::new(), data }
    }

    /// The value, read without the mutex.
    pub(crate) fn peek(&self) -> (value: &T)
        ensures
            *value == self@,
    {
        &self.data
    }

    /// The value, out of the mutex.
    pub(crate) fn into_inner(self) -> (value: T)
        ensures
            value == self@,
    {
        self.data
    }

    /// Takes the mutex in shared mode and hands out a guard; where a writer
    /// holds it, the caller has to sleep.
    pub fn lock_shared(&mut self) -> (guard: Option<WatchGuardRef<'_, T>>)
        requires
            !mutex::decode(old(self).mutex().word).writer ==> mutex::decode(
                old(self).mutex().word,
            ).readers + 1 < mutex::writer_mark(),
        ensures
            guard is Some == !mutex::decode(old(self).mutex().word).writer,
            final(self)@ == old(self)@,
            guard is None ==> old(self).mutex().same_but_word(final(self).mutex())
                && mutex::decode(final(self).mutex().word) == (mutex::WordView {
                readers_parked: true,
                ..mutex::decode(old(self).mutex().word)
            }),
            guard matches Some(g) ==> {
                &&& *g.data == old(self)@
                &&& old(self).mutex().same_but_word(g.lock@)
                &&& mutex::decode(g.lock@.word) == (mutex::WordView {
                    readers: mutex::decode(old(self).mutex().word).readers + 1,
                    ..mutex::decode(old(self).mutex().word)
                })
                &&& final(self).mutex() == final(g.lock)@
            },
    {
        match self.lock.lock_shared() {
            Attempt::Acquired => Some(WatchGuardRef::new(&self.data, &mut self.lock)),
            Attempt::MustWait => None,
        }
    }

    /// Takes the mutex exclusively and hands out a guard; where somebody holds
    /// it, the caller has to sleep.
    pub fn lock_exclusive(&mut self) -> (guard: Option<WatchGuardMut<'_, T>>)
        ensures
            guard is Some == !mutex::decode(old(self).mutex().word).held(),
            guard is None ==> final(self)@ == old(self)@ && old(self).mutex().same_but_word(
                final(self).mutex(),
            ) && mutex::decode(final(self).mutex().word) == (mutex::WordView {
                writers_parked: true,
                ..mutex::decode(old(self).mutex().word)
            }),
            guard matches Some(g) ==> {
                &&& *g.data == old(self)@
                &&& final(self)@ == *final(g.data)
                &&& old(self).mutex().same_but_word(g.lock@)
                &&& mutex::decode(g.lock@.word) == (mutex::WordView {
                    writer: true,
                    ..mutex::decode(old(self).mutex().word)
                })
                &&& final(self).mutex() == final(g.lock)@
            },
    {
        match self.lock.lock_exclusive() {
            Attempt::Acquired => Some(WatchGuardMut::new(&mut self.data, &mut self.lock)),
            Attempt::MustWait => None,
        }
    }
}

} // verus!
