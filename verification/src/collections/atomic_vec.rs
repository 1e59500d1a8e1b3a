//! A queue behind a small mutex, with a slot beside it.
//!
//! A thread that finds the mutex taken leaves its value in the slot, if that is
//! free, and goes on; whoever releases the mutex moves the value into the queue.
use crate::primitives::attempt::Attempt;
use crate::primitives::chain;
use crate::primitives::chain::Chain;
use crate::primitives::smutex;
use crate::primitives::smutex::SMutex;
use vstd::prelude::*;

verus! {

/// A queue as callers see it.
#[verifier::ext_equal]
pub struct SlotQueueView<T> {
    /// The values in the queue, from the first one to be popped.
    pub items: Seq<T>,
    /// The value in the slot.
    pub pending: Option<T>,
    /// The word of the mutex.
    pub word: usize,
    /// Handles to the queue.
    pub refs: nat,
}

impl<T> SlotQueueView<T> {
    /// The values in the queue and behind them the one in the slot.
    pub open spec fn all(self) -> Seq<T> {
        match self.pending {
            Some(v) => self.items.push(v),
            None => self.items,
        }
    }

    /// The queue after the value in the slot has moved into it.
    pub open spec fn settled(self) -> SlotQueueView<T> {
        SlotQueueView { items: self.all(), pending: None, ..self }
    }

    /// The queue after a push for which the mutex was free.
    pub open spec fn pushed(self, val: T) -> SlotQueueView<T> {
        (SlotQueueView { items: self.items.push(val), ..self }).settled()
    }

    /// The queue after a pop.
    pub open spec fn popped(self) -> SlotQueueView<T> {
        (SlotQueueView {
            items: if self.items.len() > 0 {
                self.items.skip(1)
            } else {
                self.items
            },
            ..self
        }).settled()
    }
}

/// A queue, which its handles share.
pub struct AtomicVec<T> {
    chain: Chain<T>,
    t_tail: Option<T>,
    len: usize,
    ref_count: usize,
    state: SMutex,
}

impl<T> View for AtomicVec<T> {
    type V = SlotQueueView<T>;

    closed spec fn view(&self) -> SlotQueueView<T> {
        SlotQueueView {
            items: self.chain@,
            pending: self.t_tail,
            word: self.state@,
            refs: self.ref_count as nat,
        }
    }
}

impl<T> AtomicVec<T> {
    /// The chain is in order and the counter counts it.
    pub closed spec fn wf(&self) -> bool {
        &&& self.chain.wf()
        &&& self.len == self.chain@.len()
    }

    /// An empty queue.
    pub fn new() -> (queue: Self)
        ensures
            queue.wf(),
            queue@ == (SlotQueueView {
                items: Seq::<T>::empty(),
                pending: None,
                word: smutex::UNLOCKED,
                refs: 1,
            }),
    {
        AtomicVec {
            chain: Chain::new(),
            t_tail: None,
            len: 0,
            ref_count: 1,
            state: SMutex::new(),
        }
    }

    /// Adds a value: to the slot where somebody has the mutex and the slot is
    /// free, to the end of the queue where the mutex is free. Otherwise the
    /// value comes back, and the caller waits for the mutex.
    pub fn push(&mut self, val: T) -> (r: Result<(), T>)
        requires
            old(self).wf(),
            old(self)@.items.len() < usize::MAX - 1,
        ensures
            final(self).wf(),
            r == (if (smutex::locked(old(self)@.word) && old(self)@.pending is None)
                || old(self)@.word == smutex::UNLOCKED {
                Ok(())
            } else {
                Err(val)
            }),
            r is Err ==> final(self)@ == old(self)@,
            r is Ok && smutex::locked(old(self)@.word) ==> final(self)@ == (SlotQueueView {
                pending: Some(val),
                ..old(self)@
            }),
            r is Ok && !smutex::locked(old(self)@.word) ==> final(self)@ == old(self)@.pushed(val),
    {
        if self.is_busy() {
            if self.t_tail.is_none() {
                self.t_tail = Some(val);
                return Ok(());
            }
        }
        match self.lock() {
            Attempt::Acquired => {
                self.update_tail(val);
                self.release();
                Ok(())
            },
            Attempt::MustWait => Err(val),
        }
    }

    /// Adds a value at the end of the queue.
    #[inline]
    fn update_tail(&mut self, val: T)
        requires
            old(self).wf(),
            old(self)@.items.len() < usize::MAX,
        ensures
            final(self).wf(),
            final(self)@ == (SlotQueueView { items: old(self)@.items.push(val), ..old(self)@ }),
    {
        self.chain.attach(val);
        self.len = self.len + 1;
    }

    /// Takes the first value of the queue; the value in the slot moves into the
    /// queue after that. The mutex is free.
    pub fn pop(&mut self) -> (val: Option<T>)
        requires
            old(self).wf(),
            old(self)@.word == smutex::UNLOCKED,
            old(self)@.items.len() < usize::MAX,
        ensures
            final(self).wf(),
            val == (if old(self)@.items.len() > 0 {
                Some(old(self)@.items[0])
            } else {
                None
            }),
            final(self)@ == old(self)@.popped(),
    {
        self.lock();
        let val: Option<T> = self.chain.detach();
        if val.is_some() {
            self.len = self.len - 1;
        }
        self.release();
        val
    }

    /// Whether the queue is empty.
    #[inline]
    pub fn is_empty(&self) -> (empty: bool)
        requires
            self.wf(),
        ensures
            empty == (self@.items.len() == 0),
    {
        self.len() == 0
    }

    /// The number of values in the queue.
    #[inline]
    pub fn len(&self) -> (len: usize)
        requires
            self.wf(),
        ensures
            len == self@.items.len(),
    {
        self.len
    }

    /// Whether somebody has the mutex.
    #[inline]
    pub fn is_busy(&self) -> (busy: bool)
        ensures
            busy == smutex::locked(self@.word),
    {
        self.state.is_locked()
    }

    /// Takes the mutex if it is free; otherwise the caller has to wait.
    #[inline]
    pub fn lock(&mut self) -> (r: Attempt)
        requires
            old(self).wf(),
        ensures
            final(self).wf(),
            r is Acquired == (old(self)@.word == smutex::UNLOCKED),
            final(self)@ == (SlotQueueView {
                word: if old(self)@.word == smutex::UNLOCKED {
                    smutex::LOCKED
                } else {
                    old(self)@.word
                },
                ..old(self)@
            }),
    {
        self.state.raw_lock()
    }

    /// Moves the value in the slot into the queue and gives the mutex free; one
    /// sleeper is to be woken.
    #[inline]
    pub fn release(&mut self)
        requires
            old(self).wf(),
            old(self)@.items.len() < usize::MAX,
        ensures
            final(self).wf(),
            final(self)@ == (SlotQueueView {
                word: smutex::without_lock(old(self)@.word),
                ..old(self)@.settled()
            }),
    {
        let item: Option<T> = self.t_tail.take();
        match item {
            Some(val) => {
                self.update_tail(val);
            },
            None => {},
        }
        self.state.raw_unlock();
    }

    /// Takes every value out, the one in the slot last. The mutex is free.
    pub fn drain(&mut self) -> (drained: Option<Drain<T>>)
        requires
            old(self).wf(),
            old(self)@.word == smutex::UNLOCKED,
            old(self)@.items.len() < usize::MAX,
        ensures
            final(self).wf(),
            final(self)@ == (SlotQueueView {
                items: Seq::<T>::empty(),
                pending: None,
                ..old(self)@
            }),
            drained is Some == (old(self)@.all().len() > 0),
            drained matches Some(d) ==> d.wf() && d@ == old(self)@.all(),
    {
        self.lock();
        let pending: Option<T> = self.t_tail.take();
        match pending {
            Some(val) => {
                self.update_tail(val);
            },
            None => {},
        }
        let all: Chain<T> = self.chain.take_all();
        self.len = 0;
        self.release();
        if all.is_empty() {
            None
        } else {
            Some(Drain { current: all })
        }
    }

    /// Takes every value out, the one in the slot last. The mutex is free.
    pub fn to_vec(&mut self) -> (values: Vec<T>)
        requires
            old(self).wf(),
            old(self)@.word == smutex::UNLOCKED,
            old(self)@.items.len() < usize::MAX,
        ensures
            final(self).wf(),
            final(self)@ == (SlotQueueView {
                items: Seq::<T>::empty(),
                pending: None,
                ..old(self)@
            }),
            values@ == old(self)@.all(),
    {
        match self.drain() {
            Some(iter) => iter.collect(),
            None => {
                let values: Vec<T> = Vec::new();
                assert(values@ =~= old(self)@.all());
                values
            },
        }
    }

    /// The values of the queue; the one in the slot is not among them.
    pub fn into_iter(self) -> (iter: IntoIter<T>)
        requires
            self.wf(),
        ensures
            iter.wf(),
            iter@ == self@.items,
    {
        IntoIter { current: self.chain }
    }

    /// A walk over the values of the queue.
    pub fn iter(&self) -> (iter: chain::Iter<'_, T>)
        requires
            self.wf(),
        ensures
            iter.wf(),
            iter.remaining() == self@.items,
    {
        chain::Iter::new(&self.chain)
    }

    /// A queue of `values`.
    pub fn from_vec(values: Vec<T>) -> (queue: Self)
        requires
            values@.len() < usize::MAX - 1,
        ensures
            queue.wf(),
            queue@ == (SlotQueueView {
                items: values@,
                pending: None,
                word: smutex::UNLOCKED,
                refs: 1,
            }),
    {
        let mut queue: AtomicVec<T> = Self::new();
        for v in iter: values
            invariant
                values@.len() < usize::MAX - 1,
                iter.seq() == values@,
                queue.wf(),
                queue@ == (SlotQueueView {
                    items: values@.take(iter.index()),
                    pending: None,
                    word: smutex::UNLOCKED,
                    refs: 1,
                }),
        {
            let _ = queue.push(v);
            assert(queue@.items =~= values@.take(iter.index() + 1));
        }
        assert(values@.take(values@.len() as int) =~= values@);
        queue
    }

    /// A queue of copies of `values`.
    pub fn from_slice(values: &[T]) -> (queue: Self) where T: Clone
        requires
            values@.len() < usize::MAX - 1,
        ensures
            queue.wf(),
            queue@.items.len() == values@.len(),
            forall|i: int|
                0 <= i < values@.len() ==> cloned(values@[i], #[trigger] queue@.items[i]),
            queue@.pending is None,
            queue@.word == smutex::UNLOCKED,
            queue@.refs == 1,
    {
        let mut queue: AtomicVec<T> = Self::new();
        let mut i: usize = 0;
        while i < values.len()
            invariant
                i <= values@.len(),
                values@.len() < usize::MAX - 1,
                queue.wf(),
                queue@.items.len() == i,
                forall|j: int| 0 <= j < i ==> cloned(values@[j], #[trigger] queue@.items[j]),
                queue@.pending is None,
                queue@.word == smutex::UNLOCKED,
                queue@.refs == 1,
            decreases values@.len() - i,
        {
            let ghost before = queue@.items;
            let _ = queue.push(values[i].clone());
            assert forall|j: int| 0 <= j < i + 1 implies cloned(
                values@[j],
                #[trigger] queue@.items[j],
            ) by {
                if j < i {
                    assert(queue@.items[j] == before[j]);
                }
            }
            i = i + 1;
        }
        queue
    }

    /// One more handle shares the queue.
    pub fn clone_ref(&mut self)
        requires
            old(self).wf(),
            old(self)@.refs < usize::MAX,
        ensures
            final(self).wf(),
            final(self)@ == (SlotQueueView { refs: old(self)@.refs + 1, ..old(self)@ }),
    {
        self.ref_count = self.ref_count + 1;
    }

    /// Gives one handle up; tells whether it was the last one, so that the queue
    /// is to be freed with its values and the one in the slot.
    pub fn drop_ref(&mut self) -> (last: bool)
        requires
            old(self).wf(),
            old(self)@.refs > 0,
        ensures
            final(self).wf(),
            final(self)@ == (SlotQueueView { refs: (old(self)@.refs - 1) as nat, ..old(self)@ }),
            last == (old(self)@.refs == 1),
    {
        self.ref_count = self.ref_count - 1;
        self.ref_count == 0
    }
}

/// The values that have been taken out of a queue, one after the other.
pub struct Drain<T> {
    current: Chain<T>,
}

impl<T> View for Drain<T> {
    type V = Seq<T>;

    closed spec fn view(&self) -> Seq<T> {
        self.current@
    }
}

impl<T> Drain<T> {
    /// The chain is in order.
    pub closed spec fn wf(&self) -> bool {
        self.current.wf()
    }

    /// The next value.
    pub fn next(&mut self) -> (value: Option<T>)
        requires
            old(self).wf(),
        ensures
            final(self).wf(),
            value == (if old(self)@.len() > 0 {
                Some(old(self)@[0])
            } else {
                None
            }),
            final(self)@ == (if old(self)@.len() > 0 {
                old(self)@.skip(1)
            } else {
                old(self)@
            }),
    {
        self.current.detach()
    }

    /// The values that are left, in order.
    pub fn collect(self) -> (values: Vec<T>)
        requires
            self.wf(),
        ensures
            values@ == self@,
    {
        self.current.into_vec()
    }
}

/// The values of a queue that is given up, one after the other.
pub struct IntoIter<T> {
    current: Chain<T>,
}

impl<T> View for IntoIter<T> {
    type V = Seq<T>;

    closed spec fn view(&self) -> Seq<T> {
        self.current@
    }
}

impl<T> IntoIter<T> {
    /// The chain is in order.
    pub closed spec fn wf(&self) -> bool {
        self.current.wf()
    }

    /// The next value.
    pub fn next(&mut self) -> (value: Option<T>)
        requires
            old(self).wf(),
        ensures
            final(self).wf(),
            value == (if old(self)@.len() > 0 {
                Some(old(self)@[0])
            } else {
                None
            }),
            final(self)@ == (if old(self)@.len() > 0 {
                old(self)@.skip(1)
            } else {
                old(self)@
            }),
    {
        self.current.detach()
    }

    /// The values that are left, in order.
    pub fn collect(self) -> (values: Vec<T>)
        requires
            self.wf(),
        ensures
            values@ == self@,
    {
        self.current.into_vec()
    }
}

/// A value that is left in the slot is not lost: whoever releases the mutex
/// moves it behind the values of the queue, and the queue then holds the same
/// values in the same order as it did together with its slot.
pub proof fn law_pending_value_is_kept<T>(queue: SlotQueueView<T>, val: T)
    requires
        queue.pending is None,
    ensures
        (SlotQueueView { pending: Some(val), ..queue }).settled().items == queue.items.push(val),
        queue.settled() == queue,
        queue.settled().all() == queue.all(),
{
}

/// While nobody leaves a value in the slot, a value that is pushed is popped
/// after those that were there.
pub proof fn law_first_in_first_out<T>(queue: SlotQueueView<T>, val: T)
    requires
        queue.pending is None,
    ensures
        queue.items.len() == 0 ==> queue.pushed(val).popped() == queue,
        queue.items.len() > 0 ==> queue.pushed(val).popped() == queue.popped().pushed(val),
        queue.items.len() > 0 ==> queue.pushed(val).items[0] == queue.items[0],
{
    if queue.items.len() == 0 {
        assert(queue.pushed(val).popped().items =~= queue.items);
    } else {
        assert(queue.pushed(val).popped().items =~= queue.popped().pushed(val).items);
    }
}

/// A push with a free mutex adds its value behind those of the queue, a pop takes
/// the first one away, and the value in the slot then follows behind all of them;
/// the mutex and the handles stay as they are.
pub proof fn law_pushes_and_pops_settle_the_slot<T>(queue: SlotQueueView<T>, val: T)
    ensures
        queue.pending is None ==> queue.pushed(val).items == queue.items.push(val),
        queue.pending matches Some(left) ==> queue.pushed(val).items == queue.items.push(
            val,
        ).push(left),
        queue.pending is None && queue.items.len() > 0 ==> queue.popped().items
            == queue.items.subrange(1, queue.items.len() as int),
        queue.pending is None && queue.items.len() == 0 ==> queue.popped() == queue,
        queue.pending matches Some(left) ==> queue.items.len() > 0 ==> queue.popped().items
            == queue.items.subrange(1, queue.items.len() as int).push(left),
        queue.pending matches Some(left) ==> queue.items.len() == 0 ==> queue.popped().items
            == seq![left],
        queue.pending matches Some(left) ==> queue.settled().items == queue.items.push(left)
            && queue.all() == queue.items.push(left),
        queue.pending is None ==> queue.settled() == queue && queue.all() == queue.items,
        queue.pushed(val).pending is None && queue.popped().pending is None
            && queue.settled().pending is None,
        queue.pushed(val).word == queue.word && queue.popped().word == queue.word
            && queue.settled().word == queue.word,
        queue.pushed(val).refs == queue.refs && queue.popped().refs == queue.refs
            && queue.settled().refs == queue.refs,
{
    if queue.items.len() > 0 {
        assert(queue.items.skip(1) =~= queue.items.subrange(1, queue.items.len() as int));
    } else {
        assert(queue.items =~= Seq::empty());
        if let Some(left) = queue.pending {
            assert(queue.popped().items =~= seq![left]);
        }
    }
}

} // verus!
