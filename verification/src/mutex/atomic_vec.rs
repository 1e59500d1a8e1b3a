//! A queue behind a spin flag.
use crate::primitives::attempt::Attempt;
use crate::primitives::chain::Chain;
use vstd::prelude::*;

verus! {

/// Nobody changes the queue.
const AVAILABLE: u8 = 0;

/// A thread changes the queue.
const UPDATING: u8 = 1;

/// A queue as callers see it.
#[verifier::ext_equal]
pub struct QueueView<T> {
    /// The values from the first one to be popped to the last one pushed.
    pub items: Seq<T>,
    /// A thread changes the queue.
    pub busy: bool,
    /// Handles to the queue.
    pub refs: nat,
}

/// A queue, which its handles share.
pub struct AtomicVec<T> {
    chain: Chain<T>,
    len: usize,
    state: u8,
    ref_count: usize,
}

impl<T> View for AtomicVec<T> {
    type V = QueueView<T>;

    closed spec fn view(&self) -> QueueView<T> {
        QueueView {
            items: self.chain@,
            busy: self.state != AVAILABLE,
            refs: self.ref_count as nat,
        }
    }
}

impl<T> AtomicVec<T> {
    /// The chain is in order and the counter counts it.
    pub closed spec fn wf(&self) -> bool {
        &&& self.chain.wf()
        &&& self.len == self.chain@.len()
    }

    /// An empty queue.
    pub fn new() -> (queue: Self)
        ensures
            queue.wf(),
            queue@ == (QueueView { items: Seq::<T>::empty(), busy: false, refs: 1 }),
    {
        AtomicVec { chain: Chain::new(), len: 0, state: AVAILABLE, ref_count: 1 }
    }

    /// Sets the flag if nobody has; otherwise the caller tries again after a
    /// wait.
    #[inline]
    pub fn lock(&mut self) -> (r: Attempt)
        requires
            old(self).wf(),
        ensures
            final(self).wf(),
            r is Acquired == !old(self)@.busy,
            final(self)@ == (QueueView { busy: true, ..old(self)@ }),
    {
        if self.state == AVAILABLE {
            self.state = UPDATING;
            Attempt::Acquired
        } else {
            Attempt::MustWait
        }
    }

    /// Clears the flag.
    #[inline]
    pub fn release(&mut self)
        requires
            old(self).wf(),
        ensures
            final(self).wf(),
            final(self)@ == (QueueView { busy: false, ..old(self)@ }),
    {
        self.state = AVAILABLE;
    }

    /// Adds a value at the end. Nobody changes the queue, and there is room to
    /// count one more value.
    pub fn push(&mut self, val: T)
        requires
            old(self).wf(),
            !old(self)@.busy,
            old(self)@.items.len() < usize::MAX,
        ensures
            final(self).wf(),
            final(self)@ == (QueueView { items: old(self)@.items.push(val), ..old(self)@ }),
    {
        self.lock();
        self.chain.attach(val);
        self.len = self.len + 1;
        self.release();
    }

    /// Takes the first value. Nobody changes the queue.
    pub fn pop(&mut self) -> (val: Option<T>)
        requires
            old(self).wf(),
            !old(self)@.busy,
        ensures
            final(self).wf(),
            val == (if old(self)@.items.len() > 0 {
                Some(old(self)@.items[0])
            } else {
                None
            }),
            final(self)@ == (QueueView {
                items: if old(self)@.items.len() > 0 {
                    old(self)@.items.skip(1)
                } else {
                    old(self)@.items
                },
                ..old(self)@
            }),
    {
        if self.is_empty() {
            return None;
        }
        self.lock();
        let val: Option<T> = self.chain.detach();
        self.len = self.len - 1;
        self.release();
        val
    }

    /// Whether there is no value.
    #[inline]
    pub fn is_empty(&self) -> (empty: bool)
        requires
            self.wf(),
        ensures
            empty == (self@.items.len() == 0),
    {
        self.len() == 0
    }

    /// The number of values.
    #[inline]
    pub fn len(&self) -> (len: usize)
        requires
            self.wf(),
        ensures
            len == self@.items.len(),
    {
        self.len
    }

    /// One more handle shares the queue.
    pub fn clone_ref(&mut self)
        requires
            old(self).wf(),
            old(self)@.refs < usize::MAX,
        ensures
            final(self).wf(),
            final(self)@ == (QueueView { refs: old(self)@.refs + 1, ..old(self)@ }),
    {
        self.ref_count = self.ref_count + 1;
    }

    /// Gives one handle up; tells whether it was the last one.
    pub fn drop_ref(&mut self) -> (last: bool)
        requires
            old(self).wf(),
            old(self)@.refs > 0,
        ensures
            final(self).wf(),
            final(self)@ == (QueueView { refs: (old(self)@.refs - 1) as nat, ..old(self)@ }),
            last == (old(self)@.refs == 1),
    {
        self.ref_count = self.ref_count - 1;
        self.ref_count == 0
    }
}

/// What is pushed first is popped first: a pop gives the value that has been in
/// the queue longest, whatever is pushed behind it.
pub proof fn law_first_in_first_out<T>(items: Seq<T>, val: T)
    ensures
        items.push(val).len() == items.len() + 1,
        items.len() == 0 ==> items.push(val)[0] == val && items.push(val).skip(1) == items,
        items.len() > 0 ==> items.push(val)[0] == items[0] && items.push(val).skip(1)
            == items.skip(1).push(val),
{
    if items.len() == 0 {
        assert(items.push(val).skip(1) =~= items);
    } else {
        assert(items.push(val).skip(1) =~= items.skip(1).push(val));
    }
}

} // verus!
