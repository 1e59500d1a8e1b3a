//! Parking a thread until it is handed a token.
//!
//! A parker starts with one token. Parking consumes a token, or sleeps while
//! there is none; unparking adds one, so that tokens are not lost when they come
//! before the thread parks.
use crate::primitives::attempt::Attempt;
use vstd::prelude::*;

verus! {

/// There is no token.
pub const PARKED: usize = 0;

/// The number of tokens of a new parker.
pub const UNPARKED: usize = 1;

/// A parker as callers see it.
pub struct ParkerView {
    /// Tokens that can be consumed.
    pub tokens: usize,
    /// Handles to the parker.
    pub refs: nat,
}

impl ParkerView {
    /// One token less, if there is one.
    pub open spec fn parked(self) -> ParkerView {
        ParkerView {
            tokens: if self.tokens > PARKED {
                (self.tokens - 1) as usize
            } else {
                PARKED
            },
            ..self
        }
    }

    /// One token more.
    pub open spec fn unparked(self) -> ParkerView {
        ParkerView { tokens: (self.tokens + 1) as usize, ..self }
    }
}

/// The state that the handles of a parker share.
pub struct ThreadParker {
    tokens: usize,
    ref_count: usize,
}

impl View for ThreadParker {
    type V = ParkerView;

    closed spec fn view(&self) -> ParkerView {
        ParkerView { tokens: self.tokens, refs: self.ref_count as nat }
    }
}

impl ThreadParker {
    /// A parker with one token, and a handle each for the thread that parks and
    /// for those that unpark it.
    pub fn new() -> (parts: (ThreadParker, Parker, Unparker))
        ensures
            parts.0@ == (ParkerView { tokens: UNPARKED, refs: 2 }),
    {
        let mut parker: ThreadParker = ThreadParker { tokens: UNPARKED, ref_count: 1 };
        parker.clone_ref();
        parker.clone_ref();
        parker.drop_ref();
        (parker, Parker, Unparker)
    }

    /// Consumes a token if there is one; tells whether there was.
    pub fn try_consume_token(&mut self) -> (consumed: bool)
        ensures
            consumed == (old(self)@.tokens > PARKED),
            final(self)@ == old(self)@.parked(),
    {
        if self.tokens > PARKED {
            self.tokens = self.tokens - 1;
            true
        } else {
            false
        }
    }

    /// Adds a token; returns how many there were.
    pub fn add_token(&mut self) -> (before: usize)
        requires
            old(self)@.tokens < usize::MAX,
        ensures
            before == old(self)@.tokens,
            final(self)@ == old(self)@.unparked(),
    {
        let before: usize = self.tokens;
        self.tokens = self.tokens + 1;
        before
    }

    /// Consumes a token; where there is none, the caller sleeps while the number
    /// of tokens is `PARKED`, and parks again once woken.
    pub fn park(&mut self) -> (r: Attempt)
        ensures
            r is Acquired == (old(self)@.tokens > PARKED),
            final(self)@ == old(self)@.parked(),
    {
        if self.try_consume_token() {
            Attempt::Acquired
        } else {
            Attempt::MustWait
        }
    }

    /// Adds a token; tells whether a sleeper is to be woken, which is so where
    /// there was no token.
    pub fn unpark(&mut self) -> (wakes: bool)
        requires
            old(self)@.tokens < usize::MAX,
        ensures
            wakes == (old(self)@.tokens == PARKED),
            final(self)@ == old(self)@.unparked(),
    {
        self.add_token() == PARKED
    }

    /// One more handle shares the parker.
    pub fn clone_ref(&mut self)
        requires
            old(self)@.refs < usize::MAX,
        ensures
            final(self)@ == (ParkerView { refs: old(self)@.refs + 1, ..old(self)@ }),
    {
        self.ref_count = self.ref_count + 1;
    }

    /// Gives one handle up; tells whether it was the last one.
    pub fn drop_ref(&mut self) -> (last: bool)
        requires
            old(self)@.refs > 0,
        ensures
            final(self)@ == (ParkerView { refs: (old(self)@.refs - 1) as nat, ..old(self)@ }),
            last == (old(self)@.refs == 1),
    {
        self.ref_count = self.ref_count - 1;
        self.ref_count == 0
    }
}

/// The handle of the thread that parks.
#[derive(Debug, Clone, Copy, PartialEq, Eq, Structural)]
pub struct Parker;

impl Parker {
    /// Consumes a token, or sleeps.
    pub fn park(&self, shared: &mut ThreadParker) -> (r: Attempt)
        ensures
            r is Acquired == (old(shared)@.tokens > PARKED),
            final(shared)@ == old(shared)@.parked(),
    {
        shared.park()
    }
}

/// A handle of those that unpark.
#[derive(Debug, Clone, Copy, PartialEq, Eq, Structural)]
pub struct Unparker;

impl Unparker {
    /// Adds a token.
    pub fn unpark(&self, shared: &mut ThreadParker) -> (wakes: bool)
        requires
            old(shared)@.tokens < usize::MAX,
        ensures
            wakes == (old(shared)@.tokens == PARKED),
            final(shared)@ == old(shared)@.unparked(),
    {
        shared.unpark()
    }
}

/// How many of `m` parks in a row return without sleeping.
pub open spec fn parks_passed(parker: ParkerView, m: nat) -> nat
    decreases m,
{
    if m == 0 {
        0
    } else {
        (if parker.tokens > PARKED {
            1nat
        } else {
            0
        }) + parks_passed(parker.parked(), (m - 1) as nat)
    }
}

/// No token is lost: as many parks in a row return without sleeping as there
/// are tokens.
pub proof fn law_tokens_are_kept(parker: ParkerView, m: nat)
    ensures
        parks_passed(parker, m) == (if m < parker.tokens {
            m
        } else {
            parker.tokens as nat
        }),
    decreases m,
{
    if m > 0 {
        law_tokens_are_kept(parker.parked(), (m - 1) as nat);
    }
}

/// A token that comes before the thread parks lets it pass, and is then gone.
pub proof fn law_unpark_before_park(parker: ParkerView)
    requires
        parker.tokens < usize::MAX,
    ensures
        parker.unparked().tokens > PARKED,
        parker.unparked().parked() == parker,
{
}

/// A park takes one token away where there is one and nothing where there is none,
/// an unpark adds one, and neither changes the handles.
pub proof fn law_parks_and_unparks_count_tokens(parker: ParkerView)
    ensures
        parker.tokens > 0 ==> parker.parked().tokens == parker.tokens - 1,
        parker.tokens == 0 ==> parker.parked() == parker,
        parker.tokens < usize::MAX ==> parker.unparked().tokens == parker.tokens + 1,
        parker.parked().refs == parker.refs,
        parker.unparked().refs == parker.refs,
{
}

} // verus!
