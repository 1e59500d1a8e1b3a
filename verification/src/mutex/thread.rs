//! Parking a thread on tokens and a parking state.
//!
//! Parking consumes a token, and blocks while there is none; unparking adds one.
//! A thread that finds no token announces itself by moving the state from running
//! to parking, looks again, and then moves it on to parked, where it sleeps.
use vstd::prelude::*;

verus! {

/// Nobody is parking.
pub const RUNNING: usize = 0;

/// A thread is about to park.
pub const PARKING: usize = 1;

/// A thread has parked.
pub const PARKED: usize = 2;

/// What a thread that parks does next.
#[derive(Debug, Clone, Copy, PartialEq, Eq, Structural)]
pub enum ParkStep {
    /// It has consumed a token and goes on.
    Goes,
    /// It sleeps until it is unparked, calls `woken`, and parks again.
    Sleeps,
    /// It calls `woken` and parks again.
    Wakes,
    /// It parks again.
    Spins,
}

/// What a thread that unparks does next.
#[derive(Debug, Clone, Copy, PartialEq, Eq, Structural)]
pub enum UnparkStep {
    /// It goes on.
    Goes,
    /// It wakes the parked thread, spins a while and goes on.
    Wakes,
    /// It spins a while and looks again.
    Spins,
}

/// A parker as callers see it.
pub struct TokenView {
    /// Tokens that can be consumed.
    pub tokens: isize,
    /// One of `RUNNING`, `PARKING` and `PARKED`.
    pub state: usize,
    /// Handles to the parker.
    pub refs: nat,
}

impl TokenView {
    /// The state is one of the three, and there are no fewer tokens than none.
    pub open spec fn valid(self) -> bool {
        &&& self.state == RUNNING || self.state == PARKING || self.state == PARKED
        &&& self.tokens >= 0
    }

    /// One token less, if there is one.
    pub open spec fn token_taken(self) -> TokenView {
        if self.tokens > 0 {
            TokenView { tokens: (self.tokens - 1) as isize, ..self }
        } else {
            self
        }
    }

    /// The parker after a thread has moved the parking state on.
    pub open spec fn settled(self) -> TokenView {
        TokenView {
            state: if self.state == RUNNING {
                PARKING
            } else {
                PARKED
            },
            ..self
        }
    }

    /// What a thread does that moves the parking state on.
    pub open spec fn settle_step(self, is_owner: bool) -> ParkStep {
        if self.state == PARKING {
            if self.tokens == 0 && is_owner {
                ParkStep::Sleeps
            } else {
                ParkStep::Wakes
            }
        } else {
            ParkStep::Spins
        }
    }

    /// The parker after a park. A thread that had announced itself and finds a
    /// token runs again.
    pub open spec fn parked(self) -> TokenView {
        if self.tokens > 0 {
            TokenView {
                state: if self.state == PARKING {
                    RUNNING
                } else {
                    self.state
                },
                ..self.token_taken()
            }
        } else {
            self.settled()
        }
    }

    /// What a thread that parks does next.
    pub open spec fn park_step(self, is_owner: bool) -> ParkStep {
        if self.tokens > 0 {
            ParkStep::Goes
        } else {
            self.settle_step(is_owner)
        }
    }

    /// The parker after an unpark: one token more.
    pub open spec fn unparked(self) -> TokenView {
        TokenView { tokens: (self.tokens + 1) as isize, ..self }
    }

    /// What a thread that has added its token does.
    pub open spec fn unpark_step(self) -> UnparkStep {
        if self.state == PARKED {
            UnparkStep::Wakes
        } else if self.state == RUNNING {
            UnparkStep::Goes
        } else {
            UnparkStep::Spins
        }
    }

    /// The parker after `k` parks.
    pub open spec fn after_parks(self, k: nat) -> TokenView
        decreases k,
    {
        if k == 0 {
            self
        } else {
            self.after_parks((k - 1) as nat).parked()
        }
    }
}

/// The state that the handles of a parker share.
pub struct ThreadParker {
    tokens: isize,
    ref_count: usize,
    state: usize,
}

impl View for ThreadParker {
    type V = TokenView;

    closed spec fn view(&self) -> TokenView {
        TokenView { tokens: self.tokens, state: self.state, refs: self.ref_count as nat }
    }
}

impl ThreadParker {
    /// A parker with one token.
    pub fn new() -> (parker: Self)
        ensures
            parker@ == (TokenView { tokens: 1, state: RUNNING, refs: 1 }),
    {
        ThreadParker { tokens: 1, ref_count: 1, state: RUNNING }
    }

    /// Consumes a token if there is one; tells whether there was.
    pub fn take_token(&mut self) -> (taken: bool)
        ensures
            taken == (old(self)@.tokens > 0),
            final(self)@ == old(self)@.token_taken(),
    {
        if self.tokens > 0 {
            self.tokens = self.tokens - 1;
            true
        } else {
            false
        }
    }

    /// Moves the parking state on. `is_owner` tells whether the calling thread
    /// is the one that the parker was made for; only that one sleeps.
    pub fn settle(&mut self, is_owner: bool) -> (step: ParkStep)
        requires
            old(self)@.valid(),
        ensures
            step == old(self)@.settle_step(is_owner),
            final(self)@ == old(self)@.settled(),
    {
        if self.state == RUNNING {
            self.state = PARKING;
            return ParkStep::Spins;
        }
        if self.state == PARKING {
            self.state = PARKED;
            if self.tokens == 0 && is_owner {
                return ParkStep::Sleeps;
            }
            return ParkStep::Wakes;
        }
        ParkStep::Spins
    }

    /// A thread that had parked runs again.
    pub fn woken(&mut self)
        ensures
            final(self)@ == (TokenView { state: RUNNING, ..old(self)@ }),
    {
        self.state = RUNNING;
    }

    /// Parks: consumes a token, and moves the parking state on where there is
    /// none.
    pub fn park(&mut self, is_owner: bool) -> (step: ParkStep)
        requires
            old(self)@.valid(),
        ensures
            final(self)@.valid(),
            step == old(self)@.park_step(is_owner),
            final(self)@ == old(self)@.parked(),
    {
        if self.take_token() {
            if self.state == PARKING {
                self.state = RUNNING;
            }
            return ParkStep::Goes;
        }
        self.settle(is_owner)
    }

    /// Adds a token.
    pub fn unpark(&mut self) -> (step: UnparkStep)
        requires
            old(self)@.valid(),
            old(self)@.tokens < isize::MAX,
        ensures
            final(self)@.valid(),
            final(self)@ == old(self)@.unparked(),
            step == old(self)@.unpark_step(),
    {
        self.tokens = self.tokens + 1;
        self.unpark_step()
    }

    /// What a thread that has added its token does on the parking state.
    pub fn unpark_step(&self) -> (step: UnparkStep)
        requires
            self@.valid(),
        ensures
            step == self@.unpark_step(),
    {
        if self.state == PARKED {
            UnparkStep::Wakes
        } else if self.state == RUNNING {
            UnparkStep::Goes
        } else {
            UnparkStep::Spins
        }
    }

    /// One more handle shares the parker.
    pub fn clone_ref(&mut self)
        requires
            old(self)@.refs < usize::MAX,
        ensures
            final(self)@ == (TokenView { refs: old(self)@.refs + 1, ..old(self)@ }),
    {
        self.ref_count = self.ref_count + 1;
    }

    /// Gives one handle up; tells whether it was the last one.
    pub fn drop_ref(&mut self) -> (last: bool)
        requires
            old(self)@.refs > 0,
        ensures
            final(self)@ == (TokenView { refs: (old(self)@.refs - 1) as nat, ..old(self)@ }),
            last == (old(self)@.refs == 1),
    {
        self.ref_count = self.ref_count - 1;
        self.ref_count == 0
    }
}

/// A token that comes before the thread parks lets it go on at once, and is then
/// gone.
pub proof fn law_unpark_before_park(parker: TokenView, is_owner: bool)
    requires
        parker.valid(),
        parker.tokens < isize::MAX,
    ensures
        parker.unparked().park_step(is_owner) is Goes,
        parker.unparked().parked().tokens == parker.tokens,
        parker.state != PARKING ==> parker.unparked().parked() == parker,
{
}

/// As many parks go on as there are tokens; the one after them does not.
pub proof fn law_tokens_let_parks_go(parker: TokenView, k: nat, is_owner: bool)
    requires
        parker.valid(),
        k <= parker.tokens,
    ensures
        parker.after_parks(k).tokens == parker.tokens - k,
        parker.after_parks(k).park_step(is_owner) is Goes <==> k < parker.tokens,
    decreases k,
{
    if k > 0 {
        law_tokens_let_parks_go(parker, (k - 1) as nat, is_owner);
    }
}

/// Without a token the owner announces itself, then sleeps, and the next unpark
/// wakes it: it then goes on. An unpark that comes between the two makes it go on
/// without sleeping, and does not have to wait for it any longer then.
pub proof fn law_sleeper_is_woken(parker: TokenView)
    requires
        parker.valid(),
        parker.tokens == 0,
        parker.state == RUNNING,
    ensures
        parker.park_step(true) is Spins,
        parker.parked().park_step(true) is Sleeps,
        parker.parked().parked().unpark_step() is Wakes,
        (TokenView { state: RUNNING, ..parker.parked().parked().unparked() }).park_step(
            true,
        ) is Goes,
        parker.parked().unpark_step() is Spins,
        parker.parked().unparked().park_step(true) is Goes,
        parker.parked().unparked().parked().unpark_step() is Goes,
{
}

/// A thread that parks goes on exactly if there is a token, which it takes; it
/// sleeps only if it is the owner, has announced itself and finds no token; and
/// no park changes the handles.
pub proof fn law_parking_goes_by_the_tokens(parker: TokenView, is_owner: bool)
    requires
        parker.valid(),
    ensures
        parker.park_step(is_owner) is Goes <==> parker.tokens > 0,
        parker.park_step(is_owner) is Sleeps <==> parker.tokens == 0 && is_owner && parker.state
            == PARKING,
        parker.park_step(is_owner) is Wakes <==> parker.tokens == 0 && !is_owner && parker.state
            == PARKING,
        parker.tokens > 0 ==> parker.parked().tokens == parker.tokens - 1,
        parker.tokens == 0 ==> parker.parked().tokens == 0,
        parker.tokens == 0 && parker.state == RUNNING ==> parker.parked().state == PARKING,
        parker.tokens == 0 && parker.state != RUNNING ==> parker.parked().state == PARKED,
        parker.tokens > 0 && parker.state == PARKING ==> parker.parked().state == RUNNING,
        parker.tokens > 0 && parker.state != PARKING ==> parker.parked().state == parker.state,
        parker.parked().refs == parker.refs,
        parker.parked().valid(),
{
}

/// A thread that moves the parking state on announces itself first and parks then,
/// and only the owner sleeps, where there is still no token; it takes no token.
pub proof fn law_settling_announces_first(parker: TokenView, is_owner: bool)
    requires
        parker.valid(),
    ensures
        parker.state == RUNNING ==> parker.settle_step(is_owner) is Spins
            && parker.settled().state == PARKING,
        parker.state == PARKING ==> parker.settled().state == PARKED && (parker.settle_step(
            is_owner,
        ) is Sleeps <==> is_owner && parker.tokens == 0) && (parker.settle_step(is_owner) is Wakes
            <==> !(is_owner && parker.tokens == 0)),
        parker.state == PARKED ==> parker.settle_step(is_owner) is Spins && parker.settled()
            == parker,
        parker.settled().tokens == parker.tokens,
        parker.settled().refs == parker.refs,
        parker.tokens > 0 ==> parker.token_taken().tokens == parker.tokens - 1,
        parker.tokens == 0 ==> parker.token_taken() == parker,
        parker.token_taken().state == parker.state,
        parker.token_taken().refs == parker.refs,
{
}

/// An unpark adds one token and changes nothing else; it wakes the thread exactly
/// if that has parked, goes on if nobody is parking, and otherwise looks again.
pub proof fn law_unparking_wakes_who_has_parked(parker: TokenView)
    requires
        parker.valid(),
        parker.tokens < isize::MAX,
    ensures
        parker.unparked().tokens == parker.tokens + 1,
        parker.unparked().state == parker.state,
        parker.unparked().refs == parker.refs,
        parker.unpark_step() is Wakes <==> parker.state == PARKED,
        parker.unpark_step() is Goes <==> parker.state == RUNNING,
        parker.unpark_step() is Spins <==> parker.state == PARKING,
{
}

} // verus!
