//! A barrier that releases its waiters together and can be used again.
//!
//! The counter of a barrier for `n` threads starts at `n + 2` and goes down with
//! each arrival; the one that brings it to 2 releases everybody and sets it to
//! the bucket, which is what the next round starts from. A counter of 0 switches
//! the barrier off, and one of 1 makes every thread wait for an explicit release.
use vstd::prelude::*;

verus! {

/// A barrier as callers see it.
pub struct BarrierView {
    /// The counter.
    pub waiters: usize,
    /// What the counter is set to once everybody has arrived.
    pub bucket: usize,
    /// Handles to the barrier.
    pub refs: nat,
}

/// What becomes of a thread that arrives.
#[derive(Debug, Clone, Copy, PartialEq, Eq, Structural)]
pub enum Arrival {
    /// It passes at once.
    Passes,
    /// It is the last one: it passes, and every sleeper is to be woken.
    ReleasesAll,
    /// It sleeps until it is woken.
    Sleeps,
}

impl BarrierView {
    /// A thread passes without being counted: the barrier is switched off, or
    /// nobody else has a handle.
    pub open spec fn is_off(self) -> bool {
        self.waiters == 0 || self.refs == 1
    }

    /// What becomes of a thread that saw the counter at `seen`.
    pub open spec fn arrival(self, seen: usize) -> Arrival {
        if seen > 1 && self.waiters == 3 {
            Arrival::ReleasesAll
        } else {
            Arrival::Sleeps
        }
    }

    /// The barrier after the arrival of a thread that saw the counter at `seen`.
    pub open spec fn arrived(self, seen: usize) -> BarrierView {
        BarrierView {
            waiters: if seen <= 1 {
                self.waiters
            } else if self.waiters == 3 {
                self.bucket
            } else {
                (self.waiters - 1) as usize
            },
            ..self
        }
    }

    /// The barrier after a wait that nobody disturbs.
    pub open spec fn waited(self) -> BarrierView {
        if self.is_off() {
            self
        } else {
            self.arrived(self.waiters)
        }
    }

    /// What becomes of a thread that waits.
    pub open spec fn wait_outcome(self) -> Arrival {
        if self.is_off() {
            Arrival::Passes
        } else {
            self.arrival(self.waiters)
        }
    }

    /// The barrier after `k` waits.
    pub open spec fn after_waits(self, k: nat) -> BarrierView
        decreases k,
    {
        if k == 0 {
            self
        } else {
            self.after_waits((k - 1) as nat).waited()
        }
    }
}

/// A barrier, which its handles share.
pub struct Barrier {
    ref_count: usize,
    waiters: usize,
    bucket: usize,
}

impl View for Barrier {
    type V = BarrierView;

    closed spec fn view(&self) -> BarrierView {
        BarrierView {
            waiters: self.waiters,
            bucket: self.bucket,
            refs: self.ref_count as nat,
        }
    }
}

impl Barrier {
    /// A barrier at which every thread waits for an explicit release.
    pub fn new() -> (barrier: Barrier)
        ensures
            barrier@ == (BarrierView { waiters: 1, bucket: 0, refs: 1 }),
    {
        Self::init(1, 0)
    }

    /// A barrier for `n` threads. Once they have arrived it is one for `bucket`
    /// threads, or switched off if that is 0.
    pub fn with_capacity(n: usize, bucket: usize) -> (barrier: Barrier)
        requires
            n <= usize::MAX - 2,
            bucket <= usize::MAX - 2,
        ensures
            barrier@ == (BarrierView {
                waiters: (n + 2) as usize,
                bucket: if bucket == 0 {
                    0
                } else {
                    (bucket + 2) as usize
                },
                refs: 1,
            }),
    {
        let next: usize = if bucket == 0 {
            0
        } else {
            bucket + 2
        };
        Self::init(n + 2, next)
    }

    /// A barrier with the counter `n` and the bucket `bucket`.
    fn init(n: usize, bucket: usize) -> (barrier: Barrier)
        ensures
            barrier@ == (BarrierView { waiters: n, bucket, refs: 1 }),
    {
        Barrier { ref_count: 1, waiters: n, bucket }
    }

    /// The counter.
    pub fn count(&self) -> (count: usize)
        ensures
            count == self@.waiters,
    {
        self.waiters
    }

    /// The counter as an arriving thread sees it, or nothing where it passes at
    /// once.
    pub fn look(&self) -> (seen: Option<usize>)
        ensures
            seen == (if self@.is_off() {
                None
            } else {
                Some(self@.waiters)
            }),
    {
        if self.waiters == 0 || self.ref_count == 1 {
            None
        } else {
            Some(self.waiters)
        }
    }

    /// The arrival of a thread that saw the counter at `seen`. The counter has
    /// not gone to 0 since.
    pub fn arrive(&mut self, seen: usize) -> (outcome: Arrival)
        requires
            seen > 1 ==> old(self)@.waiters > 0,
        ensures
            outcome == old(self)@.arrival(seen),
            final(self)@ == old(self)@.arrived(seen),
    {
        if seen > 1 {
            let new_val: usize = self.waiters - 1;
            self.waiters = new_val;
            if new_val == 2 {
                self.waiters = self.bucket;
                Arrival::ReleasesAll
            } else {
                Arrival::Sleeps
            }
        } else {
            Arrival::Sleeps
        }
    }

    /// A thread waits at the barrier.
    pub fn wait(&mut self) -> (outcome: Arrival)
        ensures
            outcome == old(self)@.wait_outcome(),
            final(self)@ == old(self)@.waited(),
    {
        match self.look() {
            None => Arrival::Passes,
            Some(seen) => self.arrive(seen),
        }
    }

    /// Every sleeper is to be woken; the counter stays as it is.
    #[inline]
    pub fn release(&self) -> (outcome: Arrival)
        ensures
            outcome == Arrival::ReleasesAll,
    {
        Arrival::ReleasesAll
    }

    /// One more handle shares the barrier.
    pub fn clone_ref(&mut self)
        requires
            old(self)@.refs < usize::MAX,
        ensures
            final(self)@ == (BarrierView { refs: old(self)@.refs + 1, ..old(self)@ }),
    {
        self.ref_count = self.ref_count + 1;
    }

    /// Gives one handle up; tells whether it was the last one.
    pub fn drop_ref(&mut self) -> (last: bool)
        requires
            old(self)@.refs > 0,
        ensures
            final(self)@ == (BarrierView { refs: (old(self)@.refs - 1) as nat, ..old(self)@ }),
            last == (old(self)@.refs == 1),
    {
        self.ref_count = self.ref_count - 1;
        self.ref_count == 0
    }
}

impl Default for Barrier {
    fn default() -> (barrier: Self)
        ensures
            barrier@ == (BarrierView { waiters: 1, bucket: 0, refs: 1 }),
    {
        Self::new()
    }
}

/// At a barrier for `n` threads the first `n - 1` of them sleep, and the last
/// one releases them all; the counter is then the bucket.
pub proof fn law_last_arrival_releases(barrier: BarrierView, n: nat, k: nat)
    requires
        n > 0,
        barrier.waiters == n + 2,
        barrier.refs != 1,
        k < n,
    ensures
        barrier.after_waits(k).waiters == n + 2 - k,
        barrier.after_waits(k).bucket == barrier.bucket,
        barrier.after_waits(k).refs == barrier.refs,
        barrier.after_waits(k).wait_outcome() == (if k + 1 == n {
            Arrival::ReleasesAll
        } else {
            Arrival::Sleeps
        }),
        k + 1 == n ==> barrier.after_waits(n).waiters == barrier.bucket,
    decreases k,
{
    if k > 0 {
        law_last_arrival_releases(barrier, n, (k - 1) as nat);
    }
    assert(barrier.after_waits(k + 1) == barrier.after_waits(k).waited());
}

/// A barrier whose bucket is 0 lets every thread pass once its threads have
/// arrived, however many come.
pub proof fn law_empty_bucket_switches_off(barrier: BarrierView, n: nat, k: nat)
    requires
        n > 0,
        barrier.waiters == n + 2,
        barrier.refs != 1,
        barrier.bucket == 0,
        k >= n,
    ensures
        barrier.after_waits(k).waiters == 0,
        barrier.after_waits(k).wait_outcome() == Arrival::Passes,
    decreases k,
{
    if k == n {
        law_last_arrival_releases(barrier, n, (n - 1) as nat);
    } else {
        law_empty_bucket_switches_off(barrier, n, (k - 1) as nat);
    }
}

/// A barrier with one handle lets its thread pass and stays as it is.
pub proof fn law_single_thread_passes(barrier: BarrierView, k: nat)
    requires
        barrier.refs == 1,
    ensures
        barrier.wait_outcome() == Arrival::Passes,
        barrier.after_waits(k) == barrier,
    decreases k,
{
    if k > 0 {
        law_single_thread_passes(barrier, (k - 1) as nat);
    }
}

impl BarrierView {
    /// The barrier after the arrivals of threads that saw the counter at `seens`.
    pub open spec fn after_arrivals(self, seens: Seq<usize>) -> BarrierView
        decreases seens.len(),
    {
        if seens.len() == 0 {
            self
        } else {
            self.after_arrivals(seens.drop_last()).arrived(seens.last())
        }
    }
}

/// Whatever the threads saw of the counter before they arrived, as long as that
/// was above 1: at a barrier for `n` of them the first `n - 1` sleep, and the last
/// one releases them all and sets the counter to the bucket.
pub proof fn law_any_last_arrival_releases(barrier: BarrierView, seens: Seq<usize>, k: nat)
    requires
        seens.len() > 0,
        barrier.waiters == seens.len() + 2,
        forall|i: int| 0 <= i < seens.len() ==> seens[i] > 1,
        k < seens.len(),
    ensures
        barrier.after_arrivals(seens.take(k as int)).waiters == seens.len() + 2 - k,
        barrier.after_arrivals(seens.take(k as int)).arrival(seens[k as int]) == (if k + 1
            == seens.len() {
            Arrival::ReleasesAll
        } else {
            Arrival::Sleeps
        }),
        barrier.after_arrivals(seens.take((k + 1) as int)).waiters == (if k + 1 == seens.len() {
            barrier.bucket as int
        } else {
            seens.len() + 1 - k
        }),
        barrier.after_arrivals(seens.take((k + 1) as int)).bucket == barrier.bucket,
        barrier.after_arrivals(seens.take((k + 1) as int)).refs == barrier.refs,
    decreases k,
{
    if k > 0 {
        law_any_last_arrival_releases(barrier, seens, (k - 1) as nat);
    } else {
        assert(seens.take(0) =~= Seq::empty());
    }
    assert(seens.take((k + 1) as int).drop_last() =~= seens.take(k as int));
    assert(seens.take((k + 1) as int).last() == seens[k as int]);
}

/// A thread that saw the counter at 1 or below sleeps and is not counted, whatever
/// the counter is by then, and so does everybody at a barrier that waits for an
/// explicit release.
pub proof fn law_uncounted_arrivals_sleep(barrier: BarrierView, seen: usize)
    requires
        seen <= 1,
    ensures
        barrier.arrival(seen) == Arrival::Sleeps,
        barrier.arrived(seen) == barrier,
        barrier.waiters == 1 && barrier.refs != 1 ==> barrier.wait_outcome() == Arrival::Sleeps
            && barrier.waited() == barrier,
{
}

/// A thread passes at once exactly where the counter is 0 or nobody else has a
/// handle, and then it changes nothing; every other one arrives by the counter
/// that it saw.
pub proof fn law_who_passes_at_once(barrier: BarrierView)
    ensures
        barrier.wait_outcome() == Arrival::Passes <==> barrier.waiters == 0 || barrier.refs == 1,
        barrier.is_off() <==> barrier.waiters == 0 || barrier.refs == 1,
        barrier.waiters == 0 || barrier.refs == 1 ==> barrier.waited() == barrier,
        barrier.waiters > 0 && barrier.refs != 1 ==> barrier.waited() == barrier.arrived(
            barrier.waiters,
        ) && barrier.wait_outcome() == barrier.arrival(barrier.waiters),
{
}

/// An arrival that is counted and does not end the round takes one from the
/// counter, whatever the counter is, and sleeps.
pub proof fn law_an_arrival_counts_one(barrier: BarrierView, seen: usize)
    requires
        seen > 1,
        barrier.waiters > 0,
        barrier.waiters != 3,
    ensures
        barrier.arrived(seen).waiters == barrier.waiters - 1,
        barrier.arrived(seen).bucket == barrier.bucket,
        barrier.arrived(seen).refs == barrier.refs,
        barrier.arrival(seen) == Arrival::Sleeps,
{
}

} // verus!
