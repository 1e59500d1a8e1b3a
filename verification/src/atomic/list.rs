//! A linked list that is used as a queue.
use crate::primitives::chain;
use crate::primitives::chain::Chain;
use vstd::prelude::*;

verus! {

/// A list as callers see it.
#[verifier::ext_equal]
pub struct ListView<T> {
    /// The values from the front to the end.
    pub items: Seq<T>,
    /// Handles to the list.
    pub refs: nat,
}

/// A list, which its handles share. Each call is one critical section.
pub struct AtomicList<T> {
    chain: Chain<T>,
    len: usize,
    ref_count: usize,
}

impl<T> View for AtomicList<T> {
    type V = ListView<T>;

    closed spec fn view(&self) -> ListView<T> {
        ListView { items: self.chain@, refs: self.ref_count as nat }
    }
}

impl<T> AtomicList<T> {
    /// The chain is in order and the counter counts it.
    pub closed spec fn wf(&self) -> bool {
        &&& self.chain.wf()
        &&& self.len == self.chain@.len()
    }

    /// An empty list.
    pub fn new() -> (list: Self)
        ensures
            list.wf(),
            list@ == (ListView { items: Seq::<T>::empty(), refs: 1 }),
    {
        AtomicList { chain: Chain::new(), len: 0, ref_count: 1 }
    }

    /// Adds a value at the end. There is room to count one more value.
    pub fn push(&mut self, val: T)
        requires
            old(self).wf(),
            old(self)@.items.len() < usize::MAX,
        ensures
            final(self).wf(),
            final(self)@ == (ListView { items: old(self)@.items.push(val), ..old(self)@ }),
    {
        self.chain.attach(val);
        self.len = self.len + 1;
    }

    /// Takes the value at the front.
    pub fn pop(&mut self) -> (val: Option<T>)
        requires
            old(self).wf(),
        ensures
            final(self).wf(),
            val == (if old(self)@.items.len() > 0 {
                Some(old(self)@.items[0])
            } else {
                None
            }),
            final(self)@ == (ListView {
                items: if old(self)@.items.len() > 0 {
                    old(self)@.items.skip(1)
                } else {
                    old(self)@.items
                },
                ..old(self)@
            }),
    {
        let val: Option<T> = self.chain.detach();
        if val.is_some() {
            self.len = self.len - 1;
        }
        val
    }

    /// The number of values.
    pub fn len(&self) -> (len: usize)
        requires
            self.wf(),
        ensures
            len == self@.items.len(),
    {
        self.len
    }

    /// Whether there is no value.
    pub fn is_empty(&self) -> (empty: bool)
        requires
            self.wf(),
        ensures
            empty == (self@.items.len() == 0),
    {
        self.len() == 0
    }

    /// Takes every value out.
    pub fn drain(&mut self) -> (drained: Option<Drain<T>>)
        requires
            old(self).wf(),
        ensures
            final(self).wf(),
            final(self)@ == (ListView { items: Seq::<T>::empty(), ..old(self)@ }),
            drained is Some == (old(self)@.items.len() > 0),
            drained matches Some(d) ==> d.wf() && d@ == old(self)@.items,
    {
        let all: Chain<T> = self.chain.take_all();
        self.len = 0;
        if all.is_empty() {
            None
        } else {
            Some(Drain { current: all })
        }
    }

    /// Takes every value out.
    pub fn to_vec(&mut self) -> (values: Vec<T>)
        requires
            old(self).wf(),
        ensures
            final(self).wf(),
            final(self)@ == (ListView { items: Seq::<T>::empty(), ..old(self)@ }),
            values@ == old(self)@.items,
    {
        match self.drain() {
            Some(iter) => iter.collect(),
            None => {
                let values: Vec<T> = Vec::new();
                assert(values@ =~= old(self)@.items);
                values
            },
        }
    }

    /// A walk over the values from the front.
    pub fn iter(&self) -> (iter: chain::Iter<'_, T>)
        requires
            self.wf(),
        ensures
            iter.wf(),
            iter.remaining() == self@.items,
    {
        chain::Iter::new(&self.chain)
    }

    /// One more handle shares the list.
    pub fn clone_ref(&mut self)
        requires
            old(self).wf(),
            old(self)@.refs < usize::MAX,
        ensures
            final(self).wf(),
            final(self)@ == (ListView { refs: old(self)@.refs + 1, ..old(self)@ }),
    {
        self.ref_count = self.ref_count + 1;
    }

    /// Gives one handle up; tells whether it was the last one, so that the list
    /// is to be freed with its values.
    pub fn drop_ref(&mut self) -> (last: bool)
        requires
            old(self).wf(),
            old(self)@.refs > 0,
        ensures
            final(self).wf(),
            final(self)@ == (ListView { refs: (old(self)@.refs - 1) as nat, ..old(self)@ }),
            last == (old(self)@.refs == 1),
    {
        self.ref_count = self.ref_count - 1;
        self.ref_count == 0
    }
}

/// The values that have been taken out of a list, one after the other.
pub struct Drain<T> {
    current: Chain<T>,
}

impl<T> View for Drain<T> {
    type V = Seq<T>;

    closed spec fn view(&self) -> Seq<T> {
        self.current@
    }
}

impl<T> Drain<T> {
    /// The chain is in order.
    pub closed spec fn wf(&self) -> bool {
        self.current.wf()
    }

    /// The next value.
    pub fn next(&mut self) -> (value: Option<T>)
        requires
            old(self).wf(),
        ensures
            final(self).wf(),
            value == (if old(self)@.len() > 0 {
                Some(old(self)@[0])
            } else {
                None
            }),
            final(self)@ == (if old(self)@.len() > 0 {
                old(self)@.skip(1)
            } else {
                old(self)@
            }),
    {
        self.current.detach()
    }

    /// The values that are left, in order.
    pub fn collect(self) -> (values: Vec<T>)
        requires
            self.wf(),
        ensures
            values@ == self@,
    {
        self.current.into_vec()
    }
}

/// Draining a list gives the values in the order in which popping them one by
/// one would.
pub proof fn law_drain_gives_what_pops_would<T>(items: Seq<T>, i: int)
    requires
        0 <= i < items.len(),
    ensures
        items.skip(i)[0] == items[i],
        items.skip(i).skip(1) == items.skip(i + 1),
{
    assert(items.skip(i).skip(1) =~= items.skip(i + 1));
}

} // verus!
