//! Exponential backoff for spin- and yield-based waiting.
//!
//! A [`Backoff`] decides how long each wait of a retry loop lasts; the caller
//! performs the [`Pause`] that it hands out.
use vstd::prelude::*;

verus! {

/// Steps up to this one spin; later ones yield.
pub const SPIN_LIMIT: u32 = 6;

/// Steps beyond this one mean that blocking is advised.
pub const YIELD_LIMIT: u32 = 10;

/// One wait of a retry loop.
#[derive(Debug, Clone, Copy, PartialEq, Eq, Structural)]
pub enum Pause {
    /// Issue this many processor spin hints.
    Spin(u32),
    /// Yield the thread to the scheduler.
    Yield,
    /// Do not wait.
    Skip,
}

/// The number of spin hints of step `step`: twice as many with each step, up to
/// `SPIN_LIMIT`.
pub open spec fn spin_hints(step: u32) -> u32 {
    1u32 << (if step < SPIN_LIMIT { step } else { SPIN_LIMIT })
}

/// Exponential backoff helper.
///
/// It starts with short spins, doubles them with each step, goes over to
/// yielding, and after enough steps is completed: the caller is advised to
/// block.
#[derive(Debug, Clone, Copy, PartialEq, Eq, Structural)]
pub struct Backoff {
    step: u32,
}

impl View for Backoff {
    type V = u32;

    closed spec fn view(&self) -> u32 {
        self.step
    }
}

impl Backoff {
    /// The step counter stops just beyond `YIELD_LIMIT`.
    pub open spec fn wf(&self) -> bool {
        self@ <= YIELD_LIMIT + 1
    }

    /// A backoff at step 0.
    pub fn new() -> (backoff: Self)
        ensures
            backoff@ == 0,
            backoff.wf(),
    {
        Backoff { step: 0 }
    }

    /// Starts again from the shortest wait.
    #[inline]
    pub fn reset(&mut self)
        ensures
            final(self)@ == 0,
            final(self).wf(),
    {
        self.step = 0;
    }

    /// One step that only ever spins, with the number of hints to issue. The
    /// step advances to just beyond `SPIN_LIMIT`.
    #[inline]
    pub fn spin(&mut self) -> (hints: u32)
        requires
            old(self).wf(),
        ensures
            final(self).wf(),
            hints == spin_hints(old(self)@),
            final(self)@ == (if old(self)@ <= SPIN_LIMIT {
                (old(self)@ + 1) as u32
            } else {
                old(self)@
            }),
    {
        let exponent: u32 = if self.step < SPIN_LIMIT {
            self.step
        } else {
            SPIN_LIMIT
        };
        let hints: u32 = 1 << exponent;
        if self.step <= SPIN_LIMIT {
            self.step = self.step + 1;
        }
        hints
    }

    /// Skips to the yielding phase.
    #[inline]
    pub fn yielder(&mut self)
        ensures
            final(self)@ == SPIN_LIMIT + 1,
            final(self).wf(),
    {
        self.step = SPIN_LIMIT + 1;
    }

    /// One step that spins up to `SPIN_LIMIT` and yields after that. The step
    /// advances to just beyond `YIELD_LIMIT`.
    #[inline]
    pub fn snooze(&mut self) -> (pause: Pause)
        requires
            old(self).wf(),
        ensures
            final(self).wf(),
            pause == (if old(self)@ <= SPIN_LIMIT {
                Pause::Spin(spin_hints(old(self)@))
            } else {
                Pause::Yield
            }),
            final(self)@ == (if old(self)@ <= YIELD_LIMIT {
                (old(self)@ + 1) as u32
            } else {
                old(self)@
            }),
    {
        let pause: Pause = if self.step <= SPIN_LIMIT {
            Pause::Spin(1 << self.step)
        } else {
            Pause::Yield
        };
        if self.step <= YIELD_LIMIT {
            self.step = self.step + 1;
        }
        pause
    }

    /// Whether blocking is advised.
    #[inline]
    pub fn is_completed(&self) -> (completed: bool)
        ensures
            completed == (self@ > YIELD_LIMIT),
    {
        self.step > YIELD_LIMIT
    }

    /// Whether the yielding phase is reached.
    #[inline]
    pub fn is_yielding(&self) -> (yielding: bool)
        ensures
            yielding == (self@ >= SPIN_LIMIT),
    {
        self.step >= SPIN_LIMIT
    }

    /// The wait of attempt `counter` of a loop that counts its own attempts:
    /// short spins first, then yields, and no wait from the tenth attempt on.
    #[inline]
    pub fn cpu_relax(counter: u32) -> (pause: Pause)
        ensures
            pause == (if counter >= 10 {
                Pause::Skip
            } else if counter < 3 {
                Pause::Spin(1u32 << ((counter + 1) as u32))
            } else {
                Pause::Yield
            }),
    {
        if counter >= 10 {
            return Pause::Skip;
        }
        let attempt: u32 = counter + 1;
        if attempt <= 3 {
            Pause::Spin(1 << attempt)
        } else {
            Pause::Yield
        }
    }
}

impl Default for Backoff {
    /// A backoff at step 0.
    fn default() -> (backoff: Self)
        ensures
            backoff@ == 0,
            backoff.wf(),
    {
        Backoff::new()
    }
}

/// The step after `n` snoozes from step 0.
pub open spec fn step_after(n: nat) -> u32 {
    if n <= YIELD_LIMIT {
        n as u32
    } else {
        (YIELD_LIMIT + 1) as u32
    }
}

/// Each spinning step takes twice as many hints as the one before it.
pub proof fn law_spins_double(step: u32)
    requires
        step < SPIN_LIMIT,
    ensures
        spin_hints((step + 1) as u32) == 2 * spin_hints(step),
{
    assert(1u32 << ((step + 1) as u32) == 2 * (1u32 << step)) by (bit_vector)
        requires
            step < 6,
    ;
}

/// Snoozing always gets somewhere: a backoff that has been snoozed `n` times
/// since its start is completed exactly if `n` is beyond `YIELD_LIMIT`.
pub proof fn law_snoozing_completes(n: nat)
    ensures
        step_after(0) == 0,
        step_after(n + 1) == (if step_after(n) <= YIELD_LIMIT {
            (step_after(n) + 1) as u32
        } else {
            step_after(n)
        }),
        step_after(n) > YIELD_LIMIT <==> n > YIELD_LIMIT,
{
}

/// The spins are the powers of two, from one hint on, and stop growing at
/// `SPIN_LIMIT`.
pub proof fn law_spins_are_powers_of_two(step: u32)
    ensures
        spin_hints(step) == vstd::arithmetic::power2::pow2(
            if step < SPIN_LIMIT {
                step as nat
            } else {
                SPIN_LIMIT as nat
            },
        ),
        step >= SPIN_LIMIT ==> spin_hints(step) == spin_hints(SPIN_LIMIT),
{
    vstd::arithmetic::power2::lemma2_to64();
    assert(1u32 << 0u32 == 1 && 1u32 << 1u32 == 2 && 1u32 << 2u32 == 4 && 1u32 << 3u32 == 8
        && 1u32 << 4u32 == 16 && 1u32 << 5u32 == 32 && 1u32 << 6u32 == 64) by (bit_vector);
}

} // verus!
