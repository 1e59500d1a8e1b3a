//! A small mutex in one word, with a group mode.
//!
//! The word has one bit for an exclusive holder and one that says that the group
//! is in. Taking the mutex is a loop of decisions on the word last seen
//! ([`lock_decision`], [`group_decision`]); releasing it clears one bit and wakes
//! one sleeper.
use crate::primitives::attempt::Attempt;
use vstd::prelude::*;

verus! {

/// Nobody holds the mutex.
pub const UNLOCKED: usize = 0;

/// The bit of an exclusive holder.
pub const LOCKED: usize = 1;

/// The bit that says that the group is in.
pub const GROUP_FLAG: usize = 2;

/// Somebody holds the mutex of which `word` is the word exclusively.
pub open spec fn locked(word: usize) -> bool {
    word % 2 == 1
}

/// The group is in.
pub open spec fn grouped(word: usize) -> bool {
    (word / 2) % 2 == 1
}

/// The bit operations on a word, as arithmetic.
proof fn lemma_bits(word: usize)
    ensures
        word & LOCKED == word % 2,
        word | GROUP_FLAG == (if grouped(word) {
            word as int
        } else {
            word + 2
        }),
        word & !LOCKED == word - word % 2,
        word & !GROUP_FLAG == (if grouped(word) {
            word - 2
        } else {
            word as int
        }),
{
    assert(word & 1 == word % 2) by (bit_vector);
    assert((word | 2) == (if (word / 2) % 2 == 1 { word as int } else { word + 2 }))
        by (bit_vector);
    assert(word & !1usize == word - word % 2) by (bit_vector);
    assert((word & !2usize) == (if (word / 2) % 2 == 1 { word - 2 } else { word as int }))
        by (bit_vector);
}

/// What a thread that takes the mutex does next.
#[derive(Debug, Clone, Copy, PartialEq, Eq, Structural)]
pub enum LockStep {
    /// Replace the word, if it is `current`, by `new`; the thread then holds the
    /// mutex. If it is another one, decide again by that.
    Take { current: usize, new: usize },
    /// Wait by the backoff, and read the word again.
    Snooze,
    /// Sleep while the word is `key`, as long as the mutex is held exclusively,
    /// and then read the word again.
    Sleep { key: usize },
    /// Read the word again at once.
    Reload,
}

/// What a thread that wants the mutex for itself does on the word `word`: it
/// takes a free mutex; one that somebody holds exclusively makes it wait, and
/// sleep once its backoff yields; while the group is in it keeps looking.
pub fn lock_decision(word: usize, yielding: bool) -> (step: LockStep)
    ensures
        step == (if word == UNLOCKED {
            LockStep::Take { current: UNLOCKED, new: LOCKED }
        } else if word == LOCKED {
            if yielding {
                LockStep::Sleep { key: LOCKED }
            } else {
                LockStep::Snooze
            }
        } else {
            LockStep::Reload
        }),
{
    if word == UNLOCKED {
        return LockStep::Take { current: UNLOCKED, new: LOCKED };
    }
    if word == LOCKED {
        if !yielding {
            return LockStep::Snooze;
        }
        return LockStep::Sleep { key: LOCKED };
    }
    LockStep::Reload
}

/// Whether a thread that wants the mutex for itself goes on sleeping.
pub fn lock_sleeps_on(word: usize) -> (sleeps: bool)
    ensures
        sleeps == (word == LOCKED),
{
    word == LOCKED
}

/// What a thread of the group does on the word `word`: it joins unless somebody
/// holds the mutex exclusively.
pub fn group_decision(word: usize, yielding: bool) -> (step: LockStep)
    ensures
        step == (if !locked(word) {
            LockStep::Take { current: word, new: joined(word) }
        } else if yielding {
            LockStep::Sleep { key: word }
        } else {
            LockStep::Snooze
        }),
{
    proof {
        lemma_bits(word);
    }
    if word & LOCKED == 0 {
        return LockStep::Take { current: word, new: word | GROUP_FLAG };
    }
    if !yielding {
        return LockStep::Snooze;
    }
    LockStep::Sleep { key: word }
}

/// Whether a thread of the group goes on sleeping.
pub fn group_sleeps_on(word: usize) -> (sleeps: bool)
    ensures
        sleeps == locked(word),
{
    proof {
        lemma_bits(word);
    }
    word & LOCKED != 0
}

/// The word once the group is in.
pub open spec fn joined(word: usize) -> usize {
    if grouped(word) {
        word
    } else {
        (word + 2) as usize
    }
}

/// The word without an exclusive holder.
pub open spec fn without_lock(word: usize) -> usize {
    (word - word % 2) as usize
}

/// The word without the group.
pub open spec fn without_group(word: usize) -> usize {
    if grouped(word) {
        (word - 2) as usize
    } else {
        word
    }
}

/// The mutex. Its view is its word.
pub struct SMutex {
    state: usize,
}

impl View for SMutex {
    type V = usize;

    closed spec fn view(&self) -> usize {
        self.state
    }
}

impl SMutex {
    /// A free mutex.
    pub fn new() -> (m: Self)
        ensures
            m@ == UNLOCKED,
    {
        SMutex { state: UNLOCKED }
    }

    /// Whether somebody holds the mutex exclusively.
    pub fn is_locked(&self) -> (held: bool)
        ensures
            held == locked(self@),
    {
        proof {
            lemma_bits(self.state);
        }
        self.state & LOCKED != 0
    }

    /// Takes a mutex that is free; otherwise the caller has to wait.
    pub fn raw_lock(&mut self) -> (r: Attempt)
        ensures
            r is Acquired == (old(self)@ == UNLOCKED),
            final(self)@ == (if old(self)@ == UNLOCKED {
                LOCKED
            } else {
                old(self)@
            }),
    {
        match lock_decision(self.state, true) {
            LockStep::Take { current: _, new } => {
                self.state = new;
                Attempt::Acquired
            },
            _ => Attempt::MustWait,
        }
    }

    /// Lets the group in unless somebody holds the mutex exclusively; otherwise
    /// the caller has to wait.
    pub fn raw_lock_group(&mut self) -> (r: Attempt)
        ensures
            r is Acquired == !locked(old(self)@),
            final(self)@ == (if locked(old(self)@) {
                old(self)@
            } else {
                joined(old(self)@)
            }),
    {
        match group_decision(self.state, true) {
            LockStep::Take { current: _, new } => {
                self.state = new;
                Attempt::Acquired
            },
            _ => Attempt::MustWait,
        }
    }

    /// The exclusive holder leaves; one sleeper is to be woken.
    pub fn raw_unlock(&mut self)
        ensures
            final(self)@ == without_lock(old(self)@),
    {
        proof {
            lemma_bits(self.state);
        }
        self.state = self.state & !LOCKED;
    }

    /// The group leaves; one sleeper is to be woken.
    pub fn raw_unlock_group(&mut self)
        ensures
            final(self)@ == without_group(old(self)@),
    {
        proof {
            lemma_bits(self.state);
        }
        self.state = self.state & !GROUP_FLAG;
    }

    /// Takes a free mutex; the guard stands for holding it.
    pub fn lock(&mut self) -> (guard: Option<SGuard>)
        ensures
            guard is Some == (old(self)@ == UNLOCKED),
            final(self)@ == (if old(self)@ == UNLOCKED {
                LOCKED
            } else {
                old(self)@
            }),
            guard matches Some(g) ==> !g@,
    {
        match self.raw_lock() {
            Attempt::Acquired => Some(SGuard::new()),
            Attempt::MustWait => None,
        }
    }

    /// Lets the group in; the guard is one that gives the exclusive bit back, so
    /// the group leaves only by `raw_unlock_group`.
    pub fn lock_group(&mut self) -> (guard: Option<SGuard>)
        ensures
            guard is Some == !locked(old(self)@),
            final(self)@ == (if locked(old(self)@) {
                old(self)@
            } else {
                joined(old(self)@)
            }),
            guard matches Some(g) ==> !g@,
    {
        match self.raw_lock_group() {
            Attempt::Acquired => Some(SGuard::new()),
            Attempt::MustWait => None,
        }
    }
}

/// Stands for holding the mutex. Its view tells whether it stands for the group.
pub struct SGuard {
    is_group: bool,
}

impl View for SGuard {
    type V = bool;

    closed spec fn view(&self) -> bool {
        self.is_group
    }
}

impl SGuard {
    /// A guard of an exclusive holder.
    pub fn new() -> (guard: Self)
        ensures
            !guard@,
    {
        SGuard { is_group: false }
    }

    /// A guard of the group.
    pub fn new_group() -> (guard: Self)
        ensures
            guard@,
    {
        SGuard { is_group: true }
    }

    /// Gives back what the guard stands for; one sleeper is to be woken.
    pub fn unlock(&self, m: &mut SMutex)
        ensures
            final(m)@ == (if self@ {
                without_group(old(m)@)
            } else {
                without_lock(old(m)@)
            }),
    {
        if self.is_group {
            m.raw_unlock_group();
        } else {
            m.raw_unlock();
        }
    }

    /// Takes again what the guard stands for.
    pub fn lock(&self, m: &mut SMutex) -> (r: Attempt)
        ensures
            self@ ==> r is Acquired == !locked(old(m)@) && final(m)@ == (if locked(old(m)@) {
                old(m)@
            } else {
                joined(old(m)@)
            }),
            !self@ ==> r is Acquired == (old(m)@ == UNLOCKED) && final(m)@ == (if old(m)@
                == UNLOCKED {
                LOCKED
            } else {
                old(m)@
            }),
    {
        if self.is_group {
            m.raw_lock_group()
        } else {
            m.raw_lock()
        }
    }
}

/// An exclusive holder and the group are never in together: no step that takes
/// the mutex, on whatever word it decided, makes a word with both bits out of
/// one without.
pub proof fn law_group_and_holder_exclude_each_other(word: usize)
    requires
        !(locked(word) && grouped(word)),
    ensures
        word == UNLOCKED ==> locked(LOCKED) && !grouped(LOCKED),
        !locked(word) ==> grouped(joined(word)) && !locked(joined(word)),
        !locked(without_lock(word)),
        !grouped(without_group(word)),
        grouped(without_lock(word)) == grouped(word),
        locked(without_group(word)) == locked(word),
{
}

/// Taking the mutex and giving it back leaves it as it was, in either mode.
pub proof fn law_unlock_undoes_lock(word: usize)
    ensures
        word == UNLOCKED ==> without_lock(LOCKED) == word,
        !locked(word) && !grouped(word) ==> without_group(joined(word)) == word,
{
}

/// Entering as the group sets the group's bit, leaving clears the bit of whoever
/// leaves, and every other bit of the word stays as it is.
pub proof fn law_bits_change_alone(word: usize)
    ensures
        word == 4 * (word / 4) + (if grouped(word) {
            GROUP_FLAG as int
        } else {
            0
        }) + (if locked(word) {
            LOCKED as int
        } else {
            0
        }),
        grouped(joined(word)),
        locked(joined(word)) == locked(word),
        joined(word) / 4 == word / 4,
        !locked(without_lock(word)),
        grouped(without_lock(word)) == grouped(word),
        without_lock(word) / 4 == word / 4,
        !grouped(without_group(word)),
        locked(without_group(word)) == locked(word),
        without_group(word) / 4 == word / 4,
{
}

} // verus!
