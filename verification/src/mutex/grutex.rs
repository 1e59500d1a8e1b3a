//! A mutex that is held either by one exclusive owner or by any number of
//! members of numbered groups.
//!
//! [`Grutex`] is the state behind the lock. Each method is one critical
//! section: it runs with nobody else inside, so every execution of several
//! threads is a sequence of these calls.
use crate::primitives::attempt::{Attempt, Notify};
use vstd::prelude::*;

verus! {

/// Nobody holds the lock and no group held it last.
pub const UNLOCKED: usize = 0;

/// One exclusive owner holds the lock.
pub const LOCKED_EXCLUSIVE: usize = 1;

/// Members of more than one group hold the lock, or of group 0 alone.
pub const LOCKED_GROUP: usize = 2;

/// Nobody holds the lock; groups held it last.
pub const DIRTY: usize = 3;

/// Distance between the state words of two neighbouring groups.
pub const GROUP_STEP: usize = 5;

/// The kind of lock that a sleeper waits for.
#[derive(Debug, Clone, Copy, PartialEq, Eq, Structural)]
pub enum GrutexType {
    Exclusive,
    Group,
}

/// A queue that sleepers wait in.
#[derive(Debug, Clone, Copy, PartialEq, Eq, Structural)]
pub enum WaitQueue {
    /// The queue of the exclusive lockers.
    Exclusive,
    /// The queue of one group.
    Group(usize),
    /// The queue that all groups share.
    Shared,
}

/// The group queues that a release wakes.
#[derive(Debug, Clone, Copy, PartialEq, Eq, Structural)]
pub enum GroupTarget {
    NoGroup,
    OneGroup(usize),
    EveryGroup,
}

/// Whom to wake after a change of the lock's state.
#[derive(Debug, Clone, Copy, PartialEq, Eq, Structural)]
pub struct Wakeups {
    /// Sleepers in the queue of the exclusive lockers.
    pub exclusive: Notify,
    /// Group queues of which every sleeper is woken.
    pub groups: GroupTarget,
    /// Whether every sleeper of the queue that all groups share is woken.
    pub shared: bool,
}

/// What a `Grutex` shows for debugging.
#[derive(Debug, Clone, Copy, PartialEq, Eq, Structural)]
pub struct GrutexInfo {
    pub state: usize,
    pub exclusive: bool,
    pub group: bool,
    pub lockers_total: usize,
    pub locker_types: usize,
    pub refs: usize,
}

/// The state word of a lock that group `n` alone holds.
pub open spec fn group_word(n: int) -> int {
    LOCKED_GROUP + GROUP_STEP * n
}

/// The group that a state word names, if it names one.
pub open spec fn word_group(word: usize) -> Option<usize> {
    if word > LOCKED_GROUP && (word - LOCKED_GROUP) % (GROUP_STEP as int) == 0 {
        Some(((word - LOCKED_GROUP) / (GROUP_STEP as int)) as usize)
    } else {
        None
    }
}

/// The sum of all counters.
pub open spec fn total_of(counts: Seq<usize>) -> nat
    decreases counts.len(),
{
    if counts.len() == 0 {
        0
    } else {
        total_of(counts.drop_last()) + counts.last() as nat
    }
}

/// The number of counters that are not zero.
pub open spec fn busy_groups(counts: Seq<usize>) -> nat
    decreases counts.len(),
{
    if counts.len() == 0 {
        0
    } else {
        busy_groups(counts.drop_last()) + (if counts.last() != 0 { 1nat } else { 0nat })
    }
}

/// Counter `i` is the only one that is not zero.
pub open spec fn sole_group(counts: Seq<usize>, i: int) -> bool {
    &&& 0 <= i < counts.len()
    &&& counts[i] != 0
    &&& forall|j: int| 0 <= j < counts.len() && j != i ==> counts[j] == 0
}

/// The state word of a lock that no exclusive owner holds: `idle` if no counter
/// is set, else the word of the only busy group or the one of several groups.
pub open spec fn shared_word(counts: Seq<usize>, idle: usize) -> int {
    if total_of(counts) == 0 {
        idle as int
    } else if exists|i: int| sole_group(counts, i) {
        group_word(choose|i: int| sole_group(counts, i))
    } else {
        LOCKED_GROUP as int
    }
}

/// The lock as callers see it.
pub struct GrutexView {
    /// One exclusive owner holds the lock.
    pub exclusive: bool,
    /// Groups held the lock since it was last held exclusively.
    pub dirty: bool,
    /// How many members of each group hold the lock.
    pub counts: Seq<usize>,
    /// For each group, whether it has a wait queue of its own.
    pub queues: Seq<bool>,
    /// Threads that sleep or are about to.
    pub wakers: nat,
    /// Handles to the lock.
    pub refs: nat,
}

impl GrutexView {
    /// Members of group `n` that hold the lock.
    pub open spec fn locked_for(self, n: int) -> nat {
        if 0 <= n < self.counts.len() {
            self.counts[n] as nat
        } else {
            0
        }
    }

    /// Members of all groups that hold the lock.
    pub open spec fn total(self) -> nat {
        total_of(self.counts)
    }

    /// Group `n` has a wait queue of its own.
    pub open spec fn has_queue(self, n: int) -> bool {
        0 <= n < self.queues.len() && self.queues[n]
    }

    /// The state word that stands for this state.
    pub open spec fn word(self) -> int {
        if self.exclusive {
            LOCKED_EXCLUSIVE as int
        } else {
            shared_word(self.counts, if self.dirty { DIRTY } else { UNLOCKED })
        }
    }

    /// An exclusive owner excludes every group; counters belong to a lock that
    /// groups have held.
    pub open spec fn valid(self) -> bool {
        &&& self.exclusive ==> self.total() == 0 && !self.dirty
        &&& self.total() > 0 ==> self.dirty
        &&& self.counts.len() == self.queues.len()
        &&& self.total() <= usize::MAX
        &&& forall|i: int|
            #![trigger self.counts[i]]
            0 <= i < self.counts.len() && self.counts[i] != 0 ==> group_word(i) <= usize::MAX
    }

    /// One more thread is about to sleep.
    pub open spec fn with_sleeper(self) -> GrutexView {
        GrutexView {
            wakers: if self.wakers < usize::MAX { self.wakers + 1 } else { self.wakers },
            ..self
        }
    }

    /// `n` threads fewer count as asleep.
    pub open spec fn without_sleepers(self, n: nat) -> GrutexView {
        GrutexView { wakers: if self.wakers > n { (self.wakers - n) as nat } else { 0 }, ..self }
    }

    /// Whether an exclusive locker gets the lock now.
    pub open spec fn exclusive_free(self) -> bool {
        !self.exclusive && self.total() == 0
    }

    /// `self` comes from `before` by `n`'s members growing by `added`, with
    /// nothing else about the holders changed.
    pub open spec fn group_grown(self, before: GrutexView, n: int, added: nat) -> bool {
        &&& self.exclusive == before.exclusive
        &&& self.dirty == (before.dirty || added > 0)
        &&& self.total() == before.total() + added
        &&& self.refs == before.refs
        &&& forall|m: int|
            #![trigger self.locked_for(m)]
            self.locked_for(m) == before.locked_for(m) + (if m == n { added } else { 0 })
        &&& forall|m: int|
            #![trigger self.has_queue(m)]
            self.has_queue(m) == (before.has_queue(m) || m == n)
    }

    /// The groups after every member of `n`, or of all groups, has left.
    pub open spec fn groups_cleared(self, target: Option<usize>) -> Seq<usize> {
        match target {
            Some(n) => if n < self.counts.len() {
                self.counts.update(n as int, 0)
            } else {
                self.counts
            },
            None => Seq::new(self.counts.len(), |i: int| 0usize),
        }
    }
}

/// Group mutex: the state behind the lock.
pub struct Grutex {
    state: usize,
    wakers: usize,
    counts: Vec<usize>,
    queues: Vec<bool>,
    total: usize,
    ref_count: usize,
}

impl View for Grutex {
    type V = GrutexView;

    closed spec fn view(&self) -> GrutexView {
        GrutexView {
            exclusive: self.state == LOCKED_EXCLUSIVE,
            dirty: self.state > LOCKED_EXCLUSIVE,
            counts: self.counts@,
            queues: self.queues@,
            wakers: self.wakers as nat,
            refs: self.ref_count as nat,
        }
    }
}

/// The word of group `n`, as the lock stores it while that group alone holds it.
#[inline]
pub fn group_state(n: usize) -> (word: usize)
    requires
        group_word(n as int) <= usize::MAX,
    ensures
        word == group_word(n as int),
{
    LOCKED_GROUP + (GROUP_STEP * n)
}

/// The group that the state word `st` names, if it names one.
#[inline]
pub fn decode_group_state(st: usize) -> (group: Option<usize>)
    ensures
        group == word_group(st),
{
    if st <= LOCKED_GROUP {
        return None;
    }
    let diff: usize = st - LOCKED_GROUP;
    if diff % GROUP_STEP != 0 {
        return None;
    }
    Some(diff / GROUP_STEP)
}

/// Every counter is at most the sum of all counters.
proof fn lemma_count_at_most_total(counts: Seq<usize>, i: int)
    requires
        0 <= i < counts.len(),
    ensures
        counts[i] <= total_of(counts),
    decreases counts.len(),
{
    if i < counts.len() - 1 {
        lemma_count_at_most_total(counts.drop_last(), i);
        assert(counts.drop_last()[i] == counts[i]);
    }
}

/// The sum of all counters after one of them has changed.
proof fn lemma_total_update(counts: Seq<usize>, i: int, v: usize)
    requires
        0 <= i < counts.len(),
    ensures
        total_of(counts.update(i, v)) == total_of(counts) - counts[i] + v,
    decreases counts.len(),
{
    let after = counts.update(i, v);
    if i == counts.len() - 1 {
        assert(after.drop_last() =~= counts.drop_last());
    } else {
        lemma_total_update(counts.drop_last(), i, v);
        assert(after.drop_last() =~= counts.drop_last().update(i, v));
        lemma_count_at_most_total(counts.drop_last(), i);
    }
}

/// The sum is zero exactly if every counter is.
proof fn lemma_total_zero(counts: Seq<usize>)
    ensures
        total_of(counts) == 0 <==> forall|j: int| 0 <= j < counts.len() ==> counts[j] == 0,
    decreases counts.len(),
{
    if counts.len() > 0 {
        lemma_total_zero(counts.drop_last());
        if forall|j: int| 0 <= j < counts.len() ==> counts[j] == 0 {
            assert forall|j: int| 0 <= j < counts.drop_last().len() implies counts.drop_last()[j]
                == 0 by {
                assert(counts.drop_last()[j] == counts[j]);
            }
        }
        if total_of(counts) == 0 {
            assert forall|j: int| 0 <= j < counts.len() implies counts[j] == 0 by {
                lemma_count_at_most_total(counts, j);
            }
        }
    }
}

/// Counters that are zero add nothing to the sum.
proof fn lemma_total_grown(before: Seq<usize>, after: Seq<usize>)
    requires
        before.len() <= after.len(),
        forall|j: int| 0 <= j < before.len() ==> after[j] == before[j],
        forall|j: int| before.len() <= j < after.len() ==> after[j] == 0,
    ensures
        total_of(after) == total_of(before),
    decreases after.len(),
{
    if before.len() < after.len() {
        lemma_total_grown(before, after.drop_last());
    } else {
        assert(before =~= after);
    }
}

/// If one counter holds the whole sum, the others are zero.
proof fn lemma_sole_iff_whole(counts: Seq<usize>, i: int)
    requires
        0 <= i < counts.len(),
        counts[i] != 0,
    ensures
        sole_group(counts, i) <==> total_of(counts) == counts[i],
{
    let cleared = counts.update(i, 0);
    lemma_total_update(counts, i, 0);
    lemma_total_zero(cleared);
    if sole_group(counts, i) {
        assert forall|j: int| 0 <= j < cleared.len() implies cleared[j] == 0 by {
            if j != i {
                assert(cleared[j] == counts[j]);
            }
        }
    }
    if total_of(counts) == counts[i] {
        assert forall|j: int| 0 <= j < counts.len() && j != i implies counts[j] == 0 by {
            assert(cleared[j] == counts[j]);
        }
    }
}

/// The state word names the only busy group.
proof fn lemma_shared_word_sole(counts: Seq<usize>, idle: usize, i: int)
    requires
        sole_group(counts, i),
    ensures
        shared_word(counts, idle) == group_word(i),
{
    lemma_count_at_most_total(counts, i);
    let k = choose|k: int| sole_group(counts, k);
    assert(sole_group(counts, k));
    assert(k == i);
}

/// The number of busy groups after one counter has been looked at.
proof fn lemma_busy_take(counts: Seq<usize>, i: int)
    requires
        0 <= i < counts.len(),
    ensures
        busy_groups(counts.take(i + 1)) == busy_groups(counts.take(i)) + (if counts[i] != 0 {
            1nat
        } else {
            0nat
        }),
{
    assert(counts.take(i + 1).drop_last() =~= counts.take(i));
}

impl Grutex {
    /// The state of the lock is consistent.
    pub closed spec fn wf(&self) -> bool {
        &&& self@.valid()
        &&& self.total == self@.total()
        &&& self.state == self@.word()
    }

    /// What `wf` says of the view.
    pub proof fn lemma_wf_is_valid(&self)
        requires
            self.wf(),
        ensures
            self@.valid(),
    {
    }

    /// A lock that nobody holds, with one handle.
    pub fn new() -> (lock: Self)
        ensures
            lock.wf(),
            lock@ == (GrutexView {
                exclusive: false,
                dirty: false,
                counts: Seq::empty(),
                queues: Seq::empty(),
                wakers: 0,
                refs: 1,
            }),
    {
        Grutex {
            state: UNLOCKED,
            wakers: 0,
            counts: Vec::new(),
            queues: Vec::new(),
            total: 0,
            ref_count: 1,
        }
    }

    /// The number of handles to the lock.
    pub fn get_ref_count(&self) -> (refs: usize)
        ensures
            refs == self@.refs,
    {
        self.ref_count
    }

    /// Makes one more handle to the lock.
    pub fn clone_ref(&mut self)
        requires
            old(self).wf(),
            old(self)@.refs < usize::MAX,
        ensures
            final(self).wf(),
            final(self)@ == (GrutexView { refs: old(self)@.refs + 1, ..old(self)@ }),
    {
        self.ref_count = self.ref_count + 1;
    }

    /// Gives one handle up; tells whether it was the last one, so that the
    /// lock is to be freed.
    pub fn drop_ref(&mut self) -> (last: bool)
        requires
            old(self).wf(),
            old(self)@.refs > 0,
        ensures
            final(self).wf(),
            final(self)@ == (GrutexView { refs: (old(self)@.refs - 1) as nat, ..old(self)@ }),
            last == (old(self)@.refs == 1),
    {
        self.ref_count = self.ref_count - 1;
        self.ref_count == 0
    }

    /// The number of members of all groups that hold the lock.
    pub fn get_group_locked(&self) -> (total: usize)
        requires
            self.wf(),
        ensures
            total == self@.total(),
    {
        self.total
    }

    /// The number of members of group `n` that hold the lock.
    pub fn get_group_locked_for(&self, n: usize) -> (count: usize)
        ensures
            count == self@.locked_for(n as int),
    {
        if n < self.counts.len() {
            self.counts[n]
        } else {
            0
        }
    }

    /// Whether members of any group hold the lock.
    pub fn is_locked_group(&self) -> (locked: bool)
        requires
            self.wf(),
        ensures
            locked == (self@.total() > 0),
    {
        proof {
            lemma_word_tells_holders(self@);
        }
        let st: usize = self.state;
        let total: usize = self.total;
        st == LOCKED_GROUP || (st == DIRTY && total > 0) || decode_group_state(st).is_some()
    }

    /// Whether an exclusive owner holds the lock.
    pub fn is_locked_exclusive(&self) -> (locked: bool)
        ensures
            locked == self@.exclusive,
    {
        self.state == LOCKED_EXCLUSIVE
    }

    /// Whether anybody holds the lock.
    pub fn is_locked(&self) -> (locked: bool)
        requires
            self.wf(),
        ensures
            locked == (self@.exclusive || self@.total() > 0),
    {
        proof {
            lemma_word_tells_holders(self@);
        }
        let st: usize = self.state;
        let total: usize = self.total;
        st == LOCKED_EXCLUSIVE || st == LOCKED_GROUP || (st == DIRTY && total > 0)
            || decode_group_state(st).is_some()
    }

    /// The state word.
    pub fn spin(&self) -> (word: usize)
        requires
            self.wf(),
        ensures
            word == self@.word(),
    {
        self.state
    }

    /// The state word of a lock that no exclusive owner holds.
    fn settled_word(&self, idle: usize) -> (word: usize)
        requires
            self@.valid(),
            self.total == self@.total(),
            idle == UNLOCKED || idle == DIRTY,
        ensures
            word == shared_word(self.counts@, idle),
    {
        if self.total == 0 {
            return idle;
        }
        let mut non_zero: usize = 0;
        let mut only: Option<usize> = None;
        let mut idx: usize = 0;
        while idx < self.counts.len() && non_zero <= 1
            invariant
                0 <= idx <= self.counts.len(),
                non_zero <= 2,
                non_zero == 0 <==> only is None,
                non_zero == 0 ==> forall|j: int| 0 <= j < idx ==> self.counts[j] == 0,
                non_zero == 1 ==> {
                    &&& only->0 < idx
                    &&& self.counts[only->0 as int] != 0
                    &&& forall|j: int| 0 <= j < idx && j != only->0 ==> self.counts[j] == 0
                },
                non_zero == 2 ==> exists|i: int, j: int|
                    0 <= i < j < idx && self.counts[i] != 0 && self.counts[j] != 0,
            decreases self.counts.len() - idx,
        {
            if self.counts[idx] != 0 {
                non_zero = non_zero + 1;
                if only.is_none() {
                    only = Some(idx);
                }
            }
            idx = idx + 1;
        }
        proof {
            lemma_total_zero(self.counts@);
        }
        if non_zero == 1 {
            match only {
                Some(n) => {
                    proof {
                        lemma_shared_word_sole(self.counts@, idle, n as int);
                    }
                    group_state(n)
                },
                None => LOCKED_GROUP,
            }
        } else {
            proof {
                assert(forall|i: int| !sole_group(self.counts@, i));
            }
            LOCKED_GROUP
        }
    }

    /// One attempt at taking the lock exclusively: it succeeds exactly if nobody
    /// holds the lock. A caller that has to wait sleeps in the queue of the
    /// exclusive lockers and calls [`Grutex::retry_exclusive`] once woken.
    pub fn lock_exclusive(&mut self) -> (r: Attempt)
        requires
            old(self).wf(),
        ensures
            final(self).wf(),
            r == Attempt::Acquired <==> old(self)@.exclusive_free(),
            r == Attempt::Acquired ==> final(self)@ == (GrutexView {
                exclusive: true,
                dirty: false,
                ..old(self)@
            }),
            r == Attempt::MustWait ==> final(self)@ == old(self)@.with_sleeper(),
    {
        proof {
            lemma_word_tells_holders(self@);
        }
        if self.state == UNLOCKED || (self.state == DIRTY && self.total == 0) {
            self.state = LOCKED_EXCLUSIVE;
            Attempt::Acquired
        } else {
            self.wakers = self.wakers.saturating_add(1);
            Attempt::MustWait
        }
    }

    /// What a woken exclusive locker does: it no longer counts as asleep, and
    /// tries again.
    pub fn retry_exclusive(&mut self) -> (r: Attempt)
        requires
            old(self).wf(),
        ensures
            final(self).wf(),
            r == Attempt::Acquired <==> old(self)@.exclusive_free(),
            r == Attempt::Acquired ==> final(self)@ == (GrutexView {
                exclusive: true,
                dirty: false,
                ..old(self)@.without_sleepers(1)
            }),
            r == Attempt::MustWait ==> final(self)@ == old(self)@.without_sleepers(
                1,
            ).with_sleeper(),
    {
        self.wakers = self.wakers.saturating_sub(1);
        self.lock_exclusive()
    }

    /// Makes room for the counter and the wait queue of group `n`.
    fn ensure_group_capacity(&mut self, n: usize)
        requires
            old(self).wf(),
            group_word(n as int) <= usize::MAX,
        ensures
            final(self).wf(),
            n < final(self)@.counts.len(),
            final(self)@.wakers == old(self)@.wakers,
            final(self).state == old(self).state,
            final(self)@.dirty == old(self)@.dirty,
            final(self)@.exclusive == old(self)@.exclusive,
            final(self)@.refs == old(self)@.refs,
            final(self)@.total() == old(self)@.total(),
            old(self)@.counts.len() <= final(self)@.counts.len(),
            forall|m: int|
                #![trigger final(self)@.counts[m]]
                0 <= m < final(self)@.counts.len() ==> final(self)@.counts[m] == old(
                    self,
                )@.locked_for(m),
            forall|m: int|
                #![trigger final(self)@.has_queue(m)]
                final(self)@.has_queue(m) == old(self)@.has_queue(m),
    {
        let mut new_len: usize = self.counts.len();
        if new_len == 0 {
            new_len = 1;
        }
        while n >= new_len
            invariant
                group_word(n as int) <= usize::MAX,
                1 <= new_len,
                self.counts.len() <= new_len,
            decreases 2 * n + 2 - new_len,
        {
            new_len = new_len * 2;
        }
        while self.counts.len() < new_len
            invariant
                self.counts.len() == self.queues.len(),
                old(self).counts.len() <= self.counts.len() <= new_len,
                self.state == old(self).state,
                self.wakers == old(self).wakers,
                self.total == old(self).total,
                self.ref_count == old(self).ref_count,
                forall|m: int|
                    0 <= m < old(self).counts.len() ==> self.counts[m] == old(self).counts[m],
                forall|m: int| old(self).counts.len() <= m < self.counts.len() ==> self.counts[m] == 0,
                forall|m: int|
                    0 <= m < old(self).queues.len() ==> self.queues[m] == old(self).queues[m],
                forall|m: int|
                    old(self).queues.len() <= m < self.queues.len() ==> !self.queues[m],
                old(self).counts.len() == old(self).queues.len(),
            decreases new_len - self.counts.len(),
        {
            self.counts.push(0);
            self.queues.push(false);
        }
        proof {
            lemma_total_grown(old(self).counts@, self.counts@);
            lemma_word_grown(old(self)@, self@);
            assert forall|i: int|
                #![trigger self@.counts[i]]
                0 <= i < self@.counts.len() && self@.counts[i] != 0 implies group_word(i)
                <= usize::MAX by {
                assert(old(self)@.counts[i] == self@.counts[i]);
            }
        }
    }

    /// Adds one member to group `n`, unless an exclusive owner holds the lock.
    fn try_group(&mut self, n: usize) -> (r: Attempt)
        requires
            old(self).wf(),
            n < old(self)@.counts.len(),
            group_word(n as int) <= usize::MAX,
            old(self)@.total() < usize::MAX,
        ensures
            final(self).wf(),
            r == Attempt::Acquired <==> !old(self)@.exclusive,
            r == Attempt::Acquired ==> final(self)@ == (GrutexView {
                dirty: true,
                counts: old(self)@.counts.update(
                    n as int,
                    (old(self)@.counts[n as int] + 1) as usize,
                ),
                ..old(self)@
            }),
            r == Attempt::MustWait ==> final(self)@ == old(self)@.with_sleeper(),
            final(self)@.total() == old(self)@.total() + (if r == Attempt::Acquired {
                1int
            } else {
                0
            }),
    {
        proof {
            lemma_word_tells_holders(self@);
            lemma_count_at_most_total(self.counts@, n as int);
            lemma_total_update(
                self.counts@,
                n as int,
                (self.counts@[n as int] + 1) as usize,
            );
        }
        if self.state != LOCKED_EXCLUSIVE {
            let count: usize = self.counts[n].saturating_add(1);
            self.counts.set(n, count);
            self.total = self.total + 1;
            if self.total == self.counts[n] {
                self.state = group_state(n);
            } else {
                self.state = LOCKED_GROUP;
            }
            proof {
                lemma_sole_iff_whole(self.counts@, n as int);
                if sole_group(self.counts@, n as int) {
                    lemma_shared_word_sole(self.counts@, DIRTY, n as int);
                } else {
                    assert(forall|i: int| !sole_group(self.counts@, i));
                }
                assert forall|i: int|
                    #![trigger self@.counts[i]]
                    0 <= i < self@.counts.len() && self@.counts[i] != 0 implies group_word(i)
                    <= usize::MAX by {
                    if i != n {
                        assert(old(self)@.counts[i] == self@.counts[i]);
                    }
                }
            }
            Attempt::Acquired
        } else {
            self.wakers = self.wakers.saturating_add(1);
            Attempt::MustWait
        }
    }

    /// One attempt at taking the lock as a member of group `n`: it succeeds
    /// exactly if no exclusive owner holds the lock. A caller that has to wait
    /// sleeps in the queue of its group and calls [`Grutex::retry_group`] once
    /// woken.
    pub fn lock_group(&mut self, n: usize) -> (r: Attempt)
        requires
            old(self).wf(),
            group_word(n as int) <= usize::MAX,
            old(self)@.total() < usize::MAX,
        ensures
            final(self).wf(),
            r == Attempt::Acquired <==> !old(self)@.exclusive,
            final(self)@.group_grown(
                old(self)@,
                n as int,
                if r == Attempt::Acquired {
                    1
                } else {
                    0
                },
            ),
            final(self)@.wakers == (if r == Attempt::Acquired {
                old(self)@.wakers
            } else {
                old(self)@.with_sleeper().wakers
            }),
    {
        self.ensure_group_capacity(n);
        let ghost roomy = self@;
        self.queues.set(n, true);
        proof {
            assert(self@.counts == roomy.counts);
            lemma_count_at_most_total(roomy.counts, n as int);
        }
        let r = self.try_group(n);
        proof {
            assert forall|m: int| #![trigger self@.locked_for(m)]
                self@.locked_for(m) == old(self)@.locked_for(m) + (if m == n && r
                    == Attempt::Acquired {
                    1nat
                } else {
                    0
                }) by {
                if 0 <= m < roomy.counts.len() {
                    assert(roomy.counts[m] == old(self)@.locked_for(m));
                }
            }
            assert forall|m: int| #![trigger self@.has_queue(m)]
                self@.has_queue(m) == (old(self)@.has_queue(m) || m == n) by {
                assert(roomy.has_queue(m) == old(self)@.has_queue(m));
            }
        }
        r
    }

    /// What a woken member of group `n` does: it no longer counts as asleep,
    /// and tries again.
    pub fn retry_group(&mut self, n: usize) -> (r: Attempt)
        requires
            old(self).wf(),
            old(self)@.has_queue(n as int),
            group_word(n as int) <= usize::MAX,
            old(self)@.total() < usize::MAX,
        ensures
            final(self).wf(),
            r == Attempt::Acquired <==> !old(self)@.exclusive,
            final(self)@.group_grown(
                old(self)@,
                n as int,
                if r == Attempt::Acquired {
                    1
                } else {
                    0
                },
            ),
            final(self)@.wakers == (if r == Attempt::Acquired {
                old(self)@.without_sleepers(1).wakers
            } else {
                old(self)@.without_sleepers(1).with_sleeper().wakers
            }),
    {
        self.wakers = self.wakers.saturating_sub(1);
        proof {
            lemma_count_at_most_total(self.counts@, n as int);
        }
        self.try_group(n)
    }

    /// One member of group `n` leaves. Every exclusive locker, every sleeper of
    /// the group and every sleeper of the shared queue is woken.
    pub fn unlock_group(&mut self, n: usize) -> (wake: Wakeups)
        requires
            old(self).wf(),
            old(self)@.locked_for(n as int) > 0,
        ensures
            final(self).wf(),
            final(self)@ == (GrutexView {
                counts: old(self)@.counts.update(
                    n as int,
                    (old(self)@.counts[n as int] - 1) as usize,
                ),
                ..old(self)@
            }),
            final(self)@.total() == old(self)@.total() - 1,
            wake == (Wakeups {
                exclusive: Notify::All,
                groups: if old(self)@.has_queue(n as int) {
                    GroupTarget::OneGroup(n)
                } else {
                    GroupTarget::NoGroup
                },
                shared: true,
            }),
    {
        let prev: usize = self.counts[n];
        proof {
            lemma_word_tells_holders(self@);
            lemma_count_at_most_total(self.counts@, n as int);
            lemma_total_update(self.counts@, n as int, (prev - 1) as usize);
        }
        self.counts.set(n, prev - 1);
        self.total = self.total - 1;
        proof {
            lemma_still_encodable(old(self)@.counts, self@.counts);
        }
        self.state = self.settled_word(DIRTY);
        proof {
            lemma_shared_word_is_not_exclusive(self.counts@);
        }
        Wakeups { exclusive: Notify::All, groups: self.queue_of(n), shared: true }
    }

    /// The exclusive owner leaves. Every sleeper is woken.
    pub fn unlock_exclusive(&mut self) -> (wake: Wakeups)
        requires
            old(self).wf(),
            old(self)@.exclusive,
        ensures
            final(self).wf(),
            final(self)@ == (GrutexView { exclusive: false, dirty: false, ..old(self)@ }),
            wake == (Wakeups {
                exclusive: Notify::All,
                groups: GroupTarget::EveryGroup,
                shared: true,
            }),
    {
        self.state = self.settled_word(UNLOCKED);
        Wakeups { exclusive: Notify::All, groups: GroupTarget::EveryGroup, shared: true }
    }

    /// Every member of group `target` leaves at once, or every member of every
    /// group. One exclusive locker is woken, and the sleepers of the groups that
    /// were meant.
    pub fn unlock_all_group(&mut self, target: Option<usize>) -> (wake: Wakeups)
        requires
            old(self).wf(),
            old(self)@.dirty,
        ensures
            final(self).wf(),
            final(self)@ == (GrutexView {
                counts: old(self)@.groups_cleared(target),
                ..old(self)@.without_sleepers((old(self)@.total() - final(self)@.total()) as nat)
            }),
            final(self)@.total() == (match target {
                Some(n) => old(self)@.total() - old(self)@.locked_for(n as int),
                None => 0,
            }),
            forall|m: int| #[trigger]
                final(self)@.locked_for(m) == (match target {
                    Some(n) => if m == n {
                        0
                    } else {
                        old(self)@.locked_for(m)
                    },
                    None => 0,
                }),
            wake == (Wakeups {
                exclusive: Notify::One,
                groups: match target {
                    Some(n) => if old(self)@.has_queue(n as int) {
                        GroupTarget::OneGroup(n)
                    } else {
                        GroupTarget::NoGroup
                    },
                    None => GroupTarget::EveryGroup,
                },
                shared: target is None,
            }),
    {
        match target {
            Some(n) => {
                if n < self.counts.len() {
                    let prev: usize = self.counts[n];
                    if prev > 0 {
                        proof {
                            lemma_count_at_most_total(self.counts@, n as int);
                            lemma_total_update(self.counts@, n as int, 0);
                        }
                        self.counts.set(n, 0);
                        self.total = self.total - prev;
                        self.wakers = self.wakers.saturating_sub(prev);
                    } else {
                        assert(self.counts@.update(n as int, 0) =~= self.counts@);
                    }
                }
            },
            None => {
                let prev_total: usize = self.total;
                if prev_total > 0 {
                    self.clear_counts();
                    self.total = 0;
                    self.wakers = self.wakers.saturating_sub(prev_total);
                } else {
                    proof {
                        lemma_total_zero(self.counts@);
                        assert(self.counts@ =~= old(self)@.groups_cleared(None));
                    }
                }
                proof {
                    lemma_total_zero(self.counts@);
                }
            },
        }
        proof {
            lemma_still_encodable(old(self)@.counts, self@.counts);
        }
        self.state = self.settled_word(DIRTY);
        proof {
            lemma_shared_word_is_not_exclusive(self.counts@);
        }
        match target {
            Some(n) => Wakeups {
                exclusive: Notify::One,
                groups: self.queue_of(n),
                shared: false,
            },
            None => Wakeups {
                exclusive: Notify::One,
                groups: GroupTarget::EveryGroup,
                shared: true,
            },
        }
    }

    /// Sets every counter to zero.
    fn clear_counts(&mut self)
        ensures
            final(self).state == old(self).state,
            final(self).wakers == old(self).wakers,
            final(self).total == old(self).total,
            final(self).queues == old(self).queues,
            final(self).ref_count == old(self).ref_count,
            final(self).counts@ == Seq::new(old(self).counts@.len(), |i: int| 0usize),
    {
        let mut i: usize = 0;
        while i < self.counts.len()
            invariant
                0 <= i <= self.counts.len(),
                self.counts.len() == old(self).counts.len(),
                self.state == old(self).state,
                self.wakers == old(self).wakers,
                self.total == old(self).total,
                self.queues == old(self).queues,
                self.ref_count == old(self).ref_count,
                forall|j: int| 0 <= j < i ==> self.counts[j] == 0,
            decreases self.counts.len() - i,
        {
            self.counts.set(i, 0);
            i = i + 1;
        }
        assert(self.counts@ =~= Seq::new(old(self).counts@.len(), |i: int| 0usize));
    }

    /// The queue of group `n`, if it has one.
    fn queue_of(&self, n: usize) -> (target: GroupTarget)
        ensures
            target == (if self@.has_queue(n as int) {
                GroupTarget::OneGroup(n)
            } else {
                GroupTarget::NoGroup
            }),
    {
        if n < self.queues.len() && self.queues[n] {
            GroupTarget::OneGroup(n)
        } else {
            GroupTarget::NoGroup
        }
    }

    /// The queue in which a thread that waits for a lock of kind `t` is to
    /// sleep, or `None` if nobody counts as asleep.
    pub fn suspend(&self, t: GrutexType, group_id: Option<usize>) -> (queue: Option<WaitQueue>)
        ensures
            queue == (if self@.wakers == 0 {
                None
            } else {
                Some(
                    match (t, group_id) {
                        (GrutexType::Exclusive, _) => WaitQueue::Exclusive,
                        (GrutexType::Group, Some(n)) => if self@.has_queue(n as int) {
                            WaitQueue::Group(n)
                        } else {
                            WaitQueue::Shared
                        },
                        (GrutexType::Group, None) => WaitQueue::Shared,
                    },
                )
            }),
    {
        if self.wakers == 0 {
            return None;
        }
        match t {
            GrutexType::Exclusive => Some(WaitQueue::Exclusive),
            GrutexType::Group => match group_id {
                Some(n) => match self.queue_of(n) {
                    GroupTarget::OneGroup(n) => Some(WaitQueue::Group(n)),
                    _ => Some(WaitQueue::Shared),
                },
                None => Some(WaitQueue::Shared),
            },
        }
    }

    /// Whom waking everybody of a kind wakes: the queue of group `n` for
    /// `Some(n)`, or the shared queue if that group has none; every group queue
    /// and the shared one for `None`.
    pub fn wake_all(&self, t: GrutexType, group_id: Option<usize>) -> (wake: Wakeups)
        ensures
            wake == (match (t, group_id) {
                (GrutexType::Exclusive, _) => Wakeups {
                    exclusive: Notify::All,
                    groups: GroupTarget::NoGroup,
                    shared: false,
                },
                (GrutexType::Group, Some(n)) => if self@.has_queue(n as int) {
                    Wakeups {
                        exclusive: Notify::Nobody,
                        groups: GroupTarget::OneGroup(n),
                        shared: false,
                    }
                } else {
                    Wakeups {
                        exclusive: Notify::Nobody,
                        groups: GroupTarget::NoGroup,
                        shared: true,
                    }
                },
                (GrutexType::Group, None) => Wakeups {
                    exclusive: Notify::Nobody,
                    groups: GroupTarget::EveryGroup,
                    shared: true,
                },
            }),
    {
        match t {
            GrutexType::Exclusive => Wakeups {
                exclusive: Notify::All,
                groups: GroupTarget::NoGroup,
                shared: false,
            },
            GrutexType::Group => match group_id {
                Some(n) => match self.queue_of(n) {
                    GroupTarget::OneGroup(n) => Wakeups {
                        exclusive: Notify::Nobody,
                        groups: GroupTarget::OneGroup(n),
                        shared: false,
                    },
                    _ => Wakeups {
                        exclusive: Notify::Nobody,
                        groups: GroupTarget::NoGroup,
                        shared: true,
                    },
                },
                None => Wakeups {
                    exclusive: Notify::Nobody,
                    groups: GroupTarget::EveryGroup,
                    shared: true,
                },
            },
        }
    }

    /// The queue of which waking one thread wakes one sleeper: for `None` the
    /// first group queue there is, or the shared queue.
    pub fn wake(&self, t: GrutexType, group_id: Option<usize>) -> (queue: WaitQueue)
        ensures
            match (t, group_id) {
                (GrutexType::Exclusive, _) => queue == WaitQueue::Exclusive,
                (GrutexType::Group, Some(n)) => queue == (if self@.has_queue(n as int) {
                    WaitQueue::Group(n)
                } else {
                    WaitQueue::Shared
                }),
                (GrutexType::Group, None) => match queue {
                    WaitQueue::Exclusive => false,
                    WaitQueue::Group(n) => self@.has_queue(n as int) && forall|m: int|
                        0 <= m < n ==> !self@.has_queue(m),
                    WaitQueue::Shared => forall|m: int| !self@.has_queue(m),
                },
            },
    {
        match t {
            GrutexType::Exclusive => WaitQueue::Exclusive,
            GrutexType::Group => match group_id {
                Some(n) => match self.queue_of(n) {
                    GroupTarget::OneGroup(n) => WaitQueue::Group(n),
                    _ => WaitQueue::Shared,
                },
                None => {
                    let mut i: usize = 0;
                    while i < self.queues.len()
                        invariant
                            t == GrutexType::Group,
                            group_id is None,
                            0 <= i <= self.queues.len(),
                            forall|m: int| 0 <= m < i ==> !self@.has_queue(m),
                        decreases self.queues.len() - i,
                    {
                        if self.queues[i] {
                            return WaitQueue::Group(i);
                        }
                        i = i + 1;
                    }
                    WaitQueue::Shared
                },
            },
        }
    }

    /// What the lock shows for debugging.
    pub fn info(&self) -> (info: GrutexInfo)
        requires
            self.wf(),
        ensures
            info == (GrutexInfo {
                state: self@.word() as usize,
                exclusive: self@.exclusive,
                group: self@.dirty,
                lockers_total: self@.total() as usize,
                locker_types: busy_groups(self@.counts) as usize,
                refs: self@.refs as usize,
            }),
            busy_groups(self@.counts) <= usize::MAX,
    {
        proof {
            lemma_word_tells_holders(self@);
        }
        let mut types: usize = 0;
        let mut i: usize = 0;
        while i < self.counts.len()
            invariant
                types <= i <= self.counts.len(),
                types == busy_groups(self.counts@.take(i as int)),
            decreases self.counts.len() - i,
        {
            proof {
                lemma_busy_take(self.counts@, i as int);
            }
            if self.counts[i] != 0 {
                types = types + 1;
            }
            i = i + 1;
        }
        assert(self.counts@.take(i as int) =~= self.counts@);
        GrutexInfo {
            state: self.state,
            exclusive: self.state == LOCKED_EXCLUSIVE,
            group: self.state == LOCKED_GROUP || self.state == DIRTY || decode_group_state(
                self.state,
            ).is_some(),
            lockers_total: self.total,
            locker_types: types,
            refs: self.ref_count,
        }
    }
}

impl Default for Grutex {
    /// A lock that nobody holds, with one handle.
    fn default() -> (lock: Self)
        ensures
            lock.wf(),
            lock@ == (GrutexView {
                exclusive: false,
                dirty: false,
                counts: Seq::empty(),
                queues: Seq::empty(),
                wakers: 0,
                refs: 1,
            }),
    {
        Grutex::new()
    }
}

/// The words of the busy groups still fit if counters only fall.
proof fn lemma_still_encodable(before: Seq<usize>, after: Seq<usize>)
    requires
        before.len() == after.len(),
        forall|i: int| #![trigger after[i]] 0 <= i < after.len() ==> after[i] <= before[i],
        forall|i: int|
            #![trigger before[i]]
            0 <= i < before.len() && before[i] != 0 ==> group_word(i) <= usize::MAX,
    ensures
        forall|i: int|
            #![trigger after[i]]
            0 <= i < after.len() && after[i] != 0 ==> group_word(i) <= usize::MAX,
{
    assert forall|i: int|
        #![trigger after[i]]
        0 <= i < after.len() && after[i] != 0 implies group_word(i) <= usize::MAX by {
        assert(before[i] != 0);
    }
}

/// The word of a lock that groups left is neither `UNLOCKED` nor
/// `LOCKED_EXCLUSIVE`.
proof fn lemma_shared_word_is_not_exclusive(counts: Seq<usize>)
    ensures
        shared_word(counts, DIRTY) > LOCKED_EXCLUSIVE,
{
    if total_of(counts) > 0 && exists|i: int| sole_group(counts, i) {
        let i = choose|i: int| sole_group(counts, i);
        assert(sole_group(counts, i));
    }
}

/// Counters that are zero do not change the state word.
proof fn lemma_word_grown(before: GrutexView, after: GrutexView)
    requires
        before.exclusive == after.exclusive,
        before.dirty == after.dirty,
        before.counts.len() <= after.counts.len(),
        forall|j: int| 0 <= j < before.counts.len() ==> after.counts[j] == before.counts[j],
        forall|j: int| before.counts.len() <= j < after.counts.len() ==> after.counts[j] == 0,
    ensures
        after.word() == before.word(),
{
    lemma_total_grown(before.counts, after.counts);
    if exists|i: int| sole_group(before.counts, i) {
        let i = choose|i: int| sole_group(before.counts, i);
        assert(sole_group(after.counts, i));
        lemma_shared_word_sole(before.counts, DIRTY, i);
        lemma_shared_word_sole(after.counts, DIRTY, i);
        lemma_shared_word_sole(before.counts, UNLOCKED, i);
        lemma_shared_word_sole(after.counts, UNLOCKED, i);
    } else {
        assert forall|i: int| !sole_group(after.counts, i) by {
            if sole_group(after.counts, i) {
                assert(after.counts[i] != 0);
                assert(sole_group(before.counts, i));
            }
        }
    }
}

/// The state word of a valid lock tells who holds it: `LOCKED_EXCLUSIVE` an
/// exclusive owner, `LOCKED_GROUP` or the word of a group members of groups,
/// `UNLOCKED` and `DIRTY` nobody.
pub proof fn lemma_word_tells_holders(lock: GrutexView)
    requires
        lock.valid(),
    ensures
        0 <= lock.word() <= usize::MAX,
        lock.exclusive <==> lock.word() == LOCKED_EXCLUSIVE,
        lock.total() > 0 <==> lock.word() == LOCKED_GROUP || word_group(
            lock.word() as usize,
        ) is Some,
        !lock.exclusive && lock.total() == 0 <==> lock.word() == UNLOCKED || lock.word() == DIRTY,
{
    lemma_total_zero(lock.counts);
    if lock.total() > 0 && exists|i: int| sole_group(lock.counts, i) {
        let i = choose|i: int| sole_group(lock.counts, i);
        assert(lock.counts[i] != 0);
        assert(group_word(i) <= usize::MAX);
    }
}

/// The word of a group other than group 0 names that group; the one of group 0
/// is the word of several groups.
pub proof fn lemma_group_word_names_group(n: usize)
    requires
        group_word(n as int) <= usize::MAX,
    ensures
        n > 0 ==> word_group(group_word(n as int) as usize) == Some(n),
        n == 0 ==> group_word(n as int) == LOCKED_GROUP,
{
}

/// While an exclusive owner holds the lock, no group has a member in it, and
/// while a group has one, there is no exclusive owner.
pub proof fn law_exclusive_excludes_groups(lock: Grutex)
    requires
        lock.wf(),
    ensures
        lock@.exclusive ==> forall|n: int| lock@.locked_for(n) == 0,
        forall|n: int| lock@.locked_for(n) > 0 ==> !lock@.exclusive,
{
    lemma_total_zero(lock@.counts);
    assert forall|n: int| lock@.locked_for(n) > 0 implies !lock@.exclusive by {
        lemma_count_at_most_total(lock@.counts, n);
    }
    assert forall|n: int| lock@.exclusive implies lock@.locked_for(n) == 0 by {
        if 0 <= n < lock@.counts.len() {
            assert(lock@.counts[n] == 0);
        }
    }
}

/// The total is the sum of the groups' members: it is zero exactly if no group
/// has a member, and no group has more members than the total.
pub proof fn law_total_counts_all_groups(lock: GrutexView)
    ensures
        lock.total() == 0 <==> forall|n: int| lock.locked_for(n) == 0,
        forall|n: int| lock.locked_for(n) <= lock.total(),
{
    lemma_total_zero(lock.counts);
    if forall|n: int| lock.locked_for(n) == 0 {
        assert forall|j: int| 0 <= j < lock.counts.len() implies lock.counts[j] == 0 by {
            assert(lock.locked_for(j) == 0);
        }
    }
    assert forall|n: int| lock.locked_for(n) <= lock.total() by {
        if 0 <= n < lock.counts.len() {
            lemma_count_at_most_total(lock.counts, n);
        }
    }
}

/// A member of a group that leaves undoes its entering: the groups have the
/// members that they had before.
pub proof fn law_unlock_group_undoes_lock_group(
    before: GrutexView,
    inside: GrutexView,
    after: GrutexView,
    n: usize,
)
    requires
        inside.group_grown(before, n as int, 1),
        inside.total() <= usize::MAX,
        after == (GrutexView {
            counts: inside.counts.update(n as int, (inside.counts[n as int] - 1) as usize),
            ..inside
        }),
    ensures
        forall|m: int| after.locked_for(m) == before.locked_for(m),
        after.total() == before.total(),
        after.exclusive == before.exclusive,
        after.exclusive_free() == before.exclusive_free(),
{
    assert(inside.locked_for(n as int) > 0);
    lemma_total_update(inside.counts, n as int, (inside.counts[n as int] - 1) as usize);
    assert forall|m: int| after.locked_for(m) == before.locked_for(m) by {
        assert(inside.locked_for(m) == before.locked_for(m) + (if m == n { 1nat } else { 0 }));
    }
}

/// Once every member of every group has left, an exclusive locker gets the lock.
pub proof fn law_clearing_all_groups_frees_the_lock(before: GrutexView, after: GrutexView)
    requires
        before.valid(),
        before.dirty,
        after.exclusive == before.exclusive,
        after.counts == before.groups_cleared(None),
    ensures
        after.exclusive_free(),
        forall|n: int| after.locked_for(n) == 0,
{
    lemma_total_zero(after.counts);
}

/// Releasing all of one group takes that group's members away and leaves every
/// other group as it is; releasing all groups leaves none.
pub proof fn law_unlock_all_group_releases_only_its_groups(
    before: GrutexView,
    after: GrutexView,
    target: Option<usize>,
    m: int,
)
    requires
        after.counts == before.groups_cleared(target),
    ensures
        target is None ==> after.locked_for(m) == 0,
        target matches Some(n) ==> m == n ==> after.locked_for(m) == 0,
        target matches Some(n) ==> m != n ==> after.locked_for(m) == before.locked_for(m),
        after.counts.len() == before.counts.len(),
        target matches Some(n) ==> after.total() + before.locked_for(n as int)
            == before.total(),
        target is None ==> after.total() == 0,
{
    match target {
        Some(n) => {
            if n < before.counts.len() {
                lemma_total_update(before.counts, n as int, 0);
                lemma_count_at_most_total(before.counts, n as int);
            }
        },
        None => {
            lemma_total_zero(after.counts);
        },
    }
}

/// The members of a group are what its counter says, and a group without a counter
/// has none; the total is their sum: a counter that changes changes it by as much.
pub proof fn law_members_are_counted(lock: GrutexView, n: int, members: usize)
    requires
        0 <= n < lock.counts.len(),
    ensures
        lock.locked_for(n) == lock.counts[n],
        forall|m: int| m < 0 || m >= lock.counts.len() ==> lock.locked_for(m) == 0,
        (GrutexView { counts: lock.counts.update(n, members), ..lock }).total()
            == lock.total() - lock.locked_for(n) + members,
        (GrutexView { counts: Seq::empty(), ..lock }).total() == 0,
        (GrutexView { counts: lock.counts.push(members), ..lock }).total() == lock.total()
            + members,
{
    lemma_total_update(lock.counts, n, members);
    assert(lock.counts.push(members).drop_last() =~= lock.counts);
}

/// A member that enters group `n` adds one to that group and to the total, gives
/// the group a queue, and changes no other group and no exclusive owner; one that
/// has to wait adds no member.
pub proof fn law_entering_adds_one_member(
    before: GrutexView,
    after: GrutexView,
    n: int,
    added: nat,
    m: int,
)
    requires
        after.group_grown(before, n, added),
    ensures
        after.locked_for(n) == before.locked_for(n) + added,
        m != n ==> after.locked_for(m) == before.locked_for(m),
        after.total() == before.total() + added,
        after.has_queue(n),
        m != n ==> after.has_queue(m) == before.has_queue(m),
        after.exclusive == before.exclusive,
        added > 0 ==> after.dirty,
        added == 0 ==> after.dirty == before.dirty,
        after.refs == before.refs,
{
    assert(after.locked_for(n) == before.locked_for(n) + added);
    assert(after.locked_for(m) == before.locked_for(m) + (if m == n {
        added
    } else {
        0
    }));
    assert(after.has_queue(n));
    assert(after.has_queue(m) == (before.has_queue(m) || m == n));
}

/// An exclusive locker gets the lock exactly if there is no exclusive owner and no
/// group has a member.
pub proof fn law_exclusive_waits_for_everybody(lock: GrutexView)
    ensures
        lock.exclusive_free() <==> !lock.exclusive && forall|n: int| lock.locked_for(n) == 0,
{
    law_total_counts_all_groups(lock);
}

/// A thread that goes to sleep and one that has been woken cancel out; threads
/// that leave are taken off the sleepers as far as there are any, and nothing else
/// of the lock changes.
pub proof fn law_sleepers_are_counted(lock: GrutexView, n: nat)
    ensures
        lock.wakers < usize::MAX ==> lock.with_sleeper().wakers == lock.wakers + 1
            && lock.with_sleeper().without_sleepers(1) == lock,
        lock.wakers >= usize::MAX ==> lock.with_sleeper() == lock,
        n <= lock.wakers ==> lock.without_sleepers(n).wakers == lock.wakers - n,
        n > lock.wakers ==> lock.without_sleepers(n).wakers == 0,
        lock.with_sleeper() == (GrutexView { wakers: lock.with_sleeper().wakers, ..lock }),
        lock.without_sleepers(n) == (GrutexView {
            wakers: lock.without_sleepers(n).wakers,
            ..lock
        }),
{
}

/// The state word says who holds the lock: the exclusive owner, the one group that
/// has members, several groups, or nobody, and then whether groups have been in.
pub proof fn law_state_word_names_the_holders(lock: GrutexView, n: int)
    ensures
        lock.exclusive ==> lock.word() == LOCKED_EXCLUSIVE,
        !lock.exclusive && lock.locked_for(n) > 0 && (forall|m: int|
            m != n ==> lock.locked_for(m) == 0) ==> lock.word() == LOCKED_GROUP + GROUP_STEP * n,
        !lock.exclusive && lock.locked_for(n) > 0 && (exists|m: int|
            m != n && lock.locked_for(m) > 0) ==> lock.word() == LOCKED_GROUP,
        !lock.exclusive && (forall|m: int| lock.locked_for(m) == 0) ==> lock.word() == (
        if lock.dirty {
            DIRTY
        } else {
            UNLOCKED
        }),
{
    law_total_counts_all_groups(lock);
    if !lock.exclusive && lock.locked_for(n) > 0 {
        if forall|m: int| m != n ==> lock.locked_for(m) == 0 {
            assert forall|j: int| 0 <= j < lock.counts.len() && j != n implies lock.counts[j]
                == 0 by {
                assert(lock.locked_for(j) == 0);
            }
            assert(sole_group(lock.counts, n));
            lemma_shared_word_sole(lock.counts, DIRTY, n);
            lemma_shared_word_sole(lock.counts, UNLOCKED, n);
        }
        if exists|m: int| m != n && lock.locked_for(m) > 0 {
            let m = choose|m: int| m != n && lock.locked_for(m) > 0;
            assert(lock.total() > 0);
            assert forall|i: int| !sole_group(lock.counts, i) by {
                if sole_group(lock.counts, i) {
                    assert(lock.counts[n] != 0 && lock.counts[m] != 0);
                }
            }
        }
    }
}

/// A word names group `g` exactly if it is the word of that group and not that of
/// several groups.
pub proof fn law_word_names_one_group(word: usize, g: usize)
    ensures
        word_group(word) == Some(g) <==> g > 0 && word == LOCKED_GROUP + GROUP_STEP * g,
        group_word(g as int) == LOCKED_GROUP + GROUP_STEP * g,
{
}

/// The busy groups are counted one by one.
pub proof fn law_busy_groups_are_counted(counts: Seq<usize>, members: usize)
    ensures
        busy_groups(Seq::empty()) == 0,
        busy_groups(counts.push(members)) == busy_groups(counts) + (if members > 0 {
            1int
        } else {
            0
        }),
        busy_groups(counts) <= counts.len(),
    decreases counts.len(),
{
    assert(counts.push(members).drop_last() =~= counts);
    if counts.len() > 0 {
        law_busy_groups_are_counted(counts.drop_last(), counts.last());
    }
}

/// A group has a queue of its own exactly if one has been made for it, and a
/// group that nobody has named has none.
pub proof fn law_queues_are_those_that_were_made(lock: GrutexView, n: int)
    ensures
        0 <= n < lock.queues.len() ==> lock.has_queue(n) == lock.queues[n],
        n < 0 || n >= lock.queues.len() ==> !lock.has_queue(n),
{
}

} // verus!
