//! A bounded array that is filled from the front.
//!
//! A thread that pushes first claims a slot and then publishes its value there,
//! so that several threads can be filling slots at a time. A reader of a slot
//! that has been claimed but not published waits. Pushes and reads hold the
//! array in shared mode; a reset holds it exclusively.
use crate::primitives::attempt::Attempt;
use vstd::prelude::*;

verus! {

/// The number of slots of a new array.
pub const DEFAULT_ARRAY_CAP: usize = 64;

/// How many slots have been published.
pub open spec fn published<T>(slots: Seq<Option<T>>) -> nat
    decreases slots.len(),
{
    if slots.len() == 0 {
        0
    } else {
        published(slots.drop_last()) + (if slots.last() is Some {
            1nat
        } else {
            0
        })
    }
}

/// Publishing a slot counts one more.
proof fn lemma_publish_counts<T>(slots: Seq<Option<T>>, i: int, value: T)
    requires
        0 <= i < slots.len(),
        slots[i] is None,
    ensures
        published(slots.update(i, Some(value))) == published(slots) + 1,
    decreases slots.len(),
{
    let new = slots.update(i, Some(value));
    if i == slots.len() - 1 {
        assert(new.drop_last() =~= slots.drop_last());
    } else {
        lemma_publish_counts(slots.drop_last(), i, value);
        assert(new.drop_last() =~= slots.drop_last().update(i, Some(value)));
    }
}

/// Where only the first `n` slots may be published, at most `n` are, and `n` are
/// only if each of them is.
proof fn lemma_published_bound<T>(slots: Seq<Option<T>>, n: int)
    requires
        0 <= n <= slots.len(),
        forall|i: int| n <= i < slots.len() ==> slots[i] is None,
    ensures
        published(slots) <= n,
        published(slots) == n <==> forall|i: int| 0 <= i < n ==> slots[i] is Some,
    decreases slots.len(),
{
    if slots.len() > 0 {
        let front = slots.drop_last();
        if n == slots.len() {
            lemma_published_bound(front, n - 1);
            if forall|i: int| 0 <= i < n - 1 ==> front[i] is Some {
                assert forall|i: int| 0 <= i < n && slots.last() is Some implies slots[i] is Some by {
                    if i < n - 1 {
                        assert(front[i] is Some);
                    }
                }
            }
            if forall|i: int| 0 <= i < n ==> slots[i] is Some {
                assert forall|i: int| 0 <= i < n - 1 implies front[i] is Some by {
                    assert(slots[i] is Some);
                }
                assert(slots[n - 1] is Some);
            }
        } else {
            lemma_published_bound(front, n);
            assert(slots.last() is None);
            if forall|i: int| 0 <= i < n ==> front[i] is Some {
                assert forall|i: int| 0 <= i < n implies slots[i] is Some by {
                    assert(front[i] is Some);
                }
            }
            if forall|i: int| 0 <= i < n ==> slots[i] is Some {
                assert forall|i: int| 0 <= i < n implies front[i] is Some by {
                    assert(slots[i] is Some);
                }
            }
        }
    }
}

/// No slot of a new array is published.
proof fn lemma_nothing_published<T>(slots: Seq<Option<T>>)
    requires
        forall|i: int| 0 <= i < slots.len() ==> slots[i] is None,
    ensures
        published(slots) == 0,
{
    lemma_published_bound(slots, 0);
}

/// An array as callers see it.
#[verifier::ext_equal]
pub struct ArrayView<T> {
    /// The slots; one that has not been published has no value.
    pub slots: Seq<Option<T>>,
    /// The slots that have been claimed are those before this one.
    pub tail: nat,
    /// The lock word: its lowest bit is set while the array is held exclusively,
    /// and each thread that holds it in shared mode adds two.
    pub lock: usize,
    /// Handles to the array.
    pub refs: nat,
}

impl<T> ArrayView<T> {
    /// An array of `capacity` slots that nobody has claimed, with one handle.
    pub open spec fn unfilled(capacity: nat) -> ArrayView<T> {
        ArrayView {
            slots: Seq::new(capacity, |i: int| None::<T>),
            tail: 0,
            lock: 0,
            refs: 1,
        }
    }

    /// How many values have been published.
    pub open spec fn len(self) -> nat {
        published(self.slots)
    }

    /// Every slot that has been claimed has been published.
    pub open spec fn settled(self) -> bool {
        forall|i: int| 0 <= i < self.tail ==> self.slots[i] is Some
    }

    /// The values of a settled array, in the order in which their slots were
    /// claimed.
    pub open spec fn values(self) -> Seq<T> {
        Seq::new(self.tail, |i: int| self.slots[i]->0)
    }

    /// There is a slot, no slot is published that has not been claimed, and the
    /// claimed slots are slots.
    pub open spec fn valid(self) -> bool {
        &&& self.slots.len() > 0
        &&& self.tail <= self.slots.len()
        &&& forall|i: int| self.tail <= i < self.slots.len() ==> self.slots[i] is None
    }

    /// The array is held exclusively.
    pub open spec fn exclusive(self) -> bool {
        self.lock % 2 == 1
    }
}

/// What a reader of a slot finds.
pub enum Lookup<'a, T> {
    /// There is no such value.
    Absent,
    /// The slot has been claimed, and its value is still to be published.
    Pending,
    /// The value.
    Ready(&'a T),
}

/// A bounded array, which its handles share.
pub struct AtomicArray<T> {
    slots: Vec<Option<T>>,
    tail: usize,
    len: usize,
    ref_count: usize,
    lock: usize,
}

impl<T> View for AtomicArray<T> {
    type V = ArrayView<T>;

    closed spec fn view(&self) -> ArrayView<T> {
        ArrayView {
            slots: self.slots@,
            tail: self.tail as nat,
            lock: self.lock,
            refs: self.ref_count as nat,
        }
    }
}

impl<T> AtomicArray<T> {
    /// The array is valid, and the counter counts what has been published.
    pub closed spec fn wf(&self) -> bool {
        &&& self@.valid()
        &&& self.len == self@.len()
    }

    /// What `wf` says of the view.
    pub proof fn lemma_wf_is_valid(&self)
        requires
            self.wf(),
        ensures
            self@.valid(),
            self@.len() <= self@.tail,
            self@.len() == self@.tail <==> self@.settled(),
    {
        lemma_published_bound(self@.slots, self@.tail as int);
    }

    /// `n` slots that have not been published.
    fn empty_slots(n: usize) -> (slots: Vec<Option<T>>)
        ensures
            slots@.len() == n,
            forall|i: int| 0 <= i < n ==> (#[trigger] slots@[i]) is None,
            published(slots@) == 0,
    {
        let mut slots: Vec<Option<T>> = Vec::new();
        let mut i: usize = 0;
        while i < n
            invariant
                i <= n,
                slots@.len() == i,
                forall|j: int| 0 <= j < i ==> (#[trigger] slots@[j]) is None,
            decreases n - i,
        {
            slots.push(None);
            i = i + 1;
        }
        proof {
            lemma_nothing_published(slots@);
        }
        slots
    }

    /// An empty array of the default capacity.
    #[inline]
    pub fn new() -> (array: Self)
        ensures
            array.wf(),
            array@ == ArrayView::<T>::unfilled(DEFAULT_ARRAY_CAP as nat),
    {
        Self::with_capacity(DEFAULT_ARRAY_CAP)
    }

    /// An empty array with `capacity` slots.
    pub fn with_capacity(capacity: usize) -> (array: Self)
        requires
            capacity > 0,
        ensures
            array.wf(),
            array@ == ArrayView::<T>::unfilled(capacity as nat),
    {
        AtomicArray { slots: Self::empty_slots(capacity), tail: 0, len: 0, ref_count: 1, lock: 0 }
    }

    /// The number of values that have been published.
    #[inline]
    pub fn len(&self) -> (len: usize)
        requires
            self.wf(),
        ensures
            len == self@.len(),
    {
        self.len
    }

    /// Whether no value has been published.
    #[inline]
    pub fn is_empty(&self) -> (empty: bool)
        requires
            self.wf(),
        ensures
            empty == (self@.len() == 0),
    {
        self.len == 0
    }

    /// The number of slots.
    #[inline]
    pub fn capacity(&self) -> (capacity: usize)
        ensures
            capacity == self@.slots.len(),
    {
        self.slots.len()
    }

    /// Announces a thread in shared mode. It has to wait while the array is held
    /// exclusively.
    #[inline]
    pub fn wait_lock_shared(&mut self) -> (r: Attempt)
        requires
            old(self).wf(),
            old(self)@.lock <= usize::MAX - 2,
        ensures
            final(self).wf(),
            final(self)@ == (ArrayView { lock: (old(self)@.lock + 2) as usize, ..old(self)@ }),
            r is Acquired == !old(self)@.exclusive(),
    {
        let prev: usize = self.lock;
        self.lock = self.lock + 2;
        assert(prev & 1 == prev % 2) by (bit_vector);
        if prev & 1 == 1 {
            Attempt::MustWait
        } else {
            Attempt::Acquired
        }
    }

    /// What a thread that has announced itself in shared mode and waits looks
    /// at.
    #[inline]
    pub fn retry_lock_shared(&self) -> (r: Attempt)
        ensures
            r is Acquired == !self@.exclusive(),
    {
        let word: usize = self.lock;
        assert(word & 1 == word % 2) by (bit_vector);
        if word & 1 == 1 {
            Attempt::MustWait
        } else {
            Attempt::Acquired
        }
    }

    /// Takes the array exclusively if nobody holds it in any mode.
    #[inline]
    pub fn wait_lock_exclusive(&mut self) -> (r: Attempt)
        requires
            old(self).wf(),
        ensures
            final(self).wf(),
            r is Acquired == (old(self)@.lock == 0),
            final(self)@ == (ArrayView {
                lock: if old(self)@.lock == 0 {
                    1
                } else {
                    old(self)@.lock
                },
                ..old(self)@
            }),
    {
        if self.lock == 0 {
            self.lock = 1;
            Attempt::Acquired
        } else {
            Attempt::MustWait
        }
    }

    /// A thread leaves the shared mode.
    #[inline]
    pub fn release_lock_shared(&mut self)
        requires
            old(self).wf(),
            old(self)@.lock >= 2,
        ensures
            final(self).wf(),
            final(self)@ == (ArrayView { lock: (old(self)@.lock - 2) as usize, ..old(self)@ }),
    {
        self.lock = self.lock - 2;
    }

    /// The exclusive holder leaves. Threads that have announced themselves in
    /// shared mode in the meantime stay counted.
    #[inline]
    pub fn release_lock_exclusive(&mut self)
        requires
            old(self).wf(),
            old(self)@.exclusive(),
        ensures
            final(self).wf(),
            final(self)@ == (ArrayView { lock: (old(self)@.lock - 1) as usize, ..old(self)@ }),
    {
        self.lock = self.lock - 1;
    }

    /// Claims the next slot; there is none in a full array.
    pub fn claim(&mut self) -> (slot: Option<usize>)
        requires
            old(self).wf(),
        ensures
            final(self).wf(),
            slot == (if old(self)@.tail < old(self)@.slots.len() {
                Some(old(self)@.tail as usize)
            } else {
                None
            }),
            final(self)@ == (ArrayView {
                tail: if slot is Some {
                    old(self)@.tail + 1
                } else {
                    old(self)@.tail
                },
                ..old(self)@
            }),
    {
        let tail: usize = self.tail;
        if tail >= self.slots.len() {
            return None;
        }
        self.tail = tail + 1;
        Some(tail)
    }

    /// Publishes `value` in a slot that has been claimed.
    pub fn publish(&mut self, slot: usize, value: T)
        requires
            old(self).wf(),
            slot < old(self)@.tail,
            old(self)@.slots[slot as int] is None,
        ensures
            final(self).wf(),
            final(self)@ == (ArrayView {
                slots: old(self)@.slots.update(slot as int, Some(value)),
                ..old(self)@
            }),
    {
        proof {
            lemma_publish_counts(self@.slots, slot as int, value);
            lemma_published_bound(
                self@.slots.update(slot as int, Some(value)),
                self@.tail as int,
            );
        }
        self.slots.set(slot, Some(value));
        self.len = self.len + 1;
    }

    /// Claims a slot and publishes `value` there; gives the value back if the
    /// array is full.
    pub fn push_unchecked(&mut self, value: T) -> (r: Result<(), T>)
        requires
            old(self).wf(),
        ensures
            final(self).wf(),
            r == (if old(self)@.tail < old(self)@.slots.len() {
                Ok(())
            } else {
                Err(value)
            }),
            r is Err ==> final(self)@ == old(self)@,
            r is Ok ==> final(self)@ == (ArrayView {
                slots: old(self)@.slots.update(old(self)@.tail as int, Some(value)),
                tail: old(self)@.tail + 1,
                ..old(self)@
            }),
    {
        match self.claim() {
            Some(slot) => {
                self.publish(slot, value);
                Ok(())
            },
            None => Err(value),
        }
    }

    /// Pushes in shared mode; gives the value back if the array is full.
    pub fn push(&mut self, value: T) -> (r: Result<(), T>)
        requires
            old(self).wf(),
            !old(self)@.exclusive(),
            old(self)@.lock <= usize::MAX - 2,
        ensures
            final(self).wf(),
            r == (if old(self)@.tail < old(self)@.slots.len() {
                Ok(())
            } else {
                Err(value)
            }),
            r is Err ==> final(self)@ == old(self)@,
            r is Ok ==> final(self)@ == (ArrayView {
                slots: old(self)@.slots.update(old(self)@.tail as int, Some(value)),
                tail: old(self)@.tail + 1,
                ..old(self)@
            }),
    {
        self.wait_lock_shared();
        let result: Result<(), T> = self.push_unchecked(value);
        self.release_lock_shared();
        result
    }

    /// What is at `index`.
    pub fn poll(&self, index: usize) -> (found: Lookup<'_, T>)
        requires
            self.wf(),
        ensures
            match found {
                Lookup::Absent => index >= self@.len(),
                Lookup::Pending => index < self@.len() && self@.slots[index as int] is None,
                Lookup::Ready(v) => index < self@.len() && self@.slots[index as int] == Some(*v),
            },
    {
        proof {
            self.lemma_wf_is_valid();
        }
        if index >= self.len {
            return Lookup::Absent;
        }
        match &self.slots[index] {
            Some(v) => Lookup::Ready(v),
            None => Lookup::Pending,
        }
    }

    /// The value at `index`, once nothing is pending.
    #[inline]
    pub fn get(&self, index: usize) -> (value: Option<&T>)
        requires
            self.wf(),
            self@.settled(),
        ensures
            value == (if index < self@.tail {
                Some(&self@.values()[index as int])
            } else {
                None
            }),
    {
        proof {
            self.lemma_wf_is_valid();
        }
        match self.poll(index) {
            Lookup::Ready(v) => Some(v),
            _ => None,
        }
    }

    /// Takes every value out, in order, once nothing is pending; the array is
    /// empty then.
    pub fn as_vec(&mut self) -> (out: Vec<T>)
        requires
            old(self).wf(),
            old(self)@.settled(),
        ensures
            final(self).wf(),
            out@ == old(self)@.values(),
            final(self)@ == (ArrayView {
                slots: Seq::new(old(self)@.slots.len(), |i: int| None::<T>),
                tail: 0,
                ..old(self)@
            }),
    {
        proof {
            self.lemma_wf_is_valid();
        }
        let ghost all = self@.values();
        let mut out: Vec<T> = Vec::new();
        let mut pos: usize = 0;
        while pos < self.len
            invariant
                self.slots@.len() == old(self)@.slots.len(),
                self.len == old(self)@.tail,
                self.len <= self.slots@.len(),
                self.lock == old(self)@.lock,
                self.ref_count == old(self)@.refs,
                pos <= self.len,
                all == old(self)@.values(),
                out@ == all.take(pos as int),
                old(self)@.settled(),
                forall|i: int|
                    pos <= i < self.slots@.len() ==> #[trigger] self.slots@[i]
                        == old(self)@.slots[i],
                forall|i: int| 0 <= i < pos ==> (#[trigger] self.slots@[i]) is None,
            decreases self.len - pos,
        {
            let mut slot: Option<T> = None;
            std::mem::swap(&mut self.slots[pos], &mut slot);
            match slot {
                Some(value) => {
                    assert(value == all[pos as int]);
                    out.push(value);
                },
                None => {
                    assert(old(self)@.slots[pos as int] is Some);
                },
            }
            assert(out@ =~= all.take(pos + 1));
            pos = pos + 1;
        }
        self.tail = 0;
        self.len = 0;
        proof {
            assert(all.take(pos as int) =~= all);
            lemma_nothing_published(self.slots@);
        }
        out
    }

    /// Pushes what `initializer` makes until every slot is filled.
    fn fill<F: FnMut() -> T>(&mut self, mut initializer: F) -> (r: Result<usize, usize>)
        requires
            old(self).wf(),
            old(self)@.tail == 0,
            call_requires(initializer, ()),
        ensures
            final(self).wf(),
            r == Ok::<usize, usize>(old(self)@.slots.len() as usize),
            final(self)@.slots.len() == old(self)@.slots.len(),
            final(self)@.tail == old(self)@.slots.len(),
            final(self)@.settled(),
            forall|i: int|
                0 <= i < final(self)@.tail ==> call_ensures(
                    initializer,
                    (),
                    #[trigger] final(self)@.values()[i],
                ),
            final(self)@.lock == old(self)@.lock,
            final(self)@.refs == old(self)@.refs,
    {
        let cap: usize = self.slots.len();
        let ghost made_by = initializer;
        let mut i: usize = 0;
        while i < cap
            invariant
                self.wf(),
                i <= cap,
                cap == self@.slots.len(),
                self@.tail == i,
                self@.settled(),
                forall|j: int|
                    0 <= j < i ==> call_ensures(initializer, (), #[trigger] self@.values()[j]),
                self@.lock == old(self)@.lock,
                self@.refs == old(self)@.refs,
                cap == old(self)@.slots.len(),
                initializer == made_by,
                call_requires(initializer, ()),
            decreases cap - i,
        {
            let ghost before = self@.values();
            let value: T = initializer();
            if self.push_unchecked(value).is_err() {
                return Err(i);
            }
            assert forall|j: int| 0 <= j < i + 1 implies call_ensures(
                initializer,
                (),
                #[trigger] self@.values()[j],
            ) by {
                if j < i {
                    assert(self@.values()[j] == before[j]);
                }
            }
            i = i + 1;
        }
        Ok(cap)
    }

    /// An array with `cap` slots, each of which holds what `initializer` makes.
    pub fn init_with<F: FnMut() -> T>(cap: usize, initializer: F) -> (array: Self)
        requires
            cap > 0,
            call_requires(initializer, ()),
        ensures
            array.wf(),
            array@.slots.len() == cap,
            array@.tail == cap,
            array@.settled(),
            forall|i: int|
                0 <= i < cap ==> call_ensures(initializer, (), #[trigger] array@.values()[i]),
            array@.lock == 0,
            array@.refs == 1,
    {
        let mut array: AtomicArray<T> = Self::with_capacity(cap);
        let _ = array.fill(initializer);
        array
    }

    /// Drops the values and starts again with `new_cap` slots, each of which
    /// holds what `initializer` makes. Nobody holds the array.
    pub fn reset_with<F: FnMut() -> T>(&mut self, new_cap: usize, initializer: F) -> (r: Result<
        usize,
        usize,
    >)
        requires
            old(self).wf(),
            old(self)@.lock == 0,
            new_cap > 0,
            call_requires(initializer, ()),
        ensures
            final(self).wf(),
            r == Ok::<usize, usize>(new_cap),
            final(self)@.slots.len() == new_cap,
            final(self)@.tail == new_cap,
            final(self)@.settled(),
            forall|i: int|
                0 <= i < new_cap ==> call_ensures(
                    initializer,
                    (),
                    #[trigger] final(self)@.values()[i],
                ),
            final(self)@.lock == 0,
            final(self)@.refs == old(self)@.refs,
    {
        self.wait_lock_exclusive();
        self.slots = Self::empty_slots(new_cap);
        self.tail = 0;
        self.len = 0;
        let r: Result<usize, usize> = self.fill(initializer);
        let ghost filled = self@;
        self.release_lock_exclusive();
        assert(self@.values() =~= filled.values());
        r
    }

    /// Drops the values and starts again with `values`, one slot for each of them.
    /// Nobody holds the array.
    pub fn reset_from(&mut self, values: Vec<T>) -> (r: Result<usize, usize>)
        requires
            old(self).wf(),
            old(self)@.lock == 0,
            values@.len() > 0,
        ensures
            final(self).wf(),
            r == Ok::<usize, usize>(values@.len() as usize),
            final(self)@.slots.len() == values@.len(),
            final(self)@.settled(),
            final(self)@.values() == values@,
            final(self)@.lock == 0,
            final(self)@.refs == old(self)@.refs,
    {
        let cap: usize = values.len();
        let refs: usize = self.ref_count;
        let mut array: AtomicArray<T> = Self::with_capacity(cap);
        for value in iter: values
            invariant
                cap == values@.len(),
                iter.seq() == values@,
                array.wf(),
                array@.slots.len() == cap,
                array@.settled(),
                array@.tail == iter.index(),
                array@.values() == values@.take(iter.index()),
                array@.lock == 0,
        {
            let _ = array.push_unchecked(value);
            assert(array@.values() =~= values@.take(array@.tail as int));
        }
        assert(values@.take(cap as int) =~= values@);
        let ghost filled = array@;
        array.ref_count = refs;
        assert(array@.values() =~= filled.values());
        *self = array;
        Ok(cap)
    }

    /// An array of `items`, of which as many are kept as there are slots: at
    /// least as many as `at_least` says, and at least the default capacity.
    pub fn from_items(at_least: usize, items: Vec<T>) -> (array: Self)
        ensures
            array.wf(),
            array@.slots.len() == (if at_least > DEFAULT_ARRAY_CAP {
                at_least
            } else {
                DEFAULT_ARRAY_CAP
            }),
            array@.settled(),
            array@.values() == items@.take(
                if items@.len() < array@.slots.len() {
                    items@.len() as int
                } else {
                    array@.slots.len() as int
                },
            ),
            array@.lock == 0,
            array@.refs == 1,
    {
        let capacity: usize = if at_least > DEFAULT_ARRAY_CAP {
            at_least
        } else {
            DEFAULT_ARRAY_CAP
        };
        let mut array: AtomicArray<T> = Self::with_capacity(capacity);
        for item in iter: items
            invariant
                iter.seq() == items@,
                array.wf(),
                array@.slots.len() == capacity,
                array@.settled(),
                array@.tail == (if iter.index() < capacity {
                    iter.index()
                } else {
                    capacity as int
                }),
                array@.values() == items@.take(array@.tail as int),
                array@.lock == 0,
                array@.refs == 1,
        {
            let ghost before = array@;
            let _ = array.push(item);
            assert(array@.values() =~= items@.take(array@.tail as int));
        }
        array
    }

    /// The number of handles to the array.
    pub fn get_ref_count(&self) -> (refs: usize)
        ensures
            refs == self@.refs,
    {
        self.ref_count
    }

    /// One more handle shares the array.
    pub fn clone_ref(&mut self)
        requires
            old(self).wf(),
            old(self)@.refs < usize::MAX,
        ensures
            final(self).wf(),
            final(self)@ == (ArrayView { refs: old(self)@.refs + 1, ..old(self)@ }),
    {
        self.ref_count = self.ref_count + 1;
    }

    /// Gives one handle up; tells whether it was the last one, so that the array
    /// is to be freed with its values.
    pub fn drop_ref(&mut self) -> (last: bool)
        requires
            old(self).wf(),
            old(self)@.refs > 0,
        ensures
            final(self).wf(),
            final(self)@ == (ArrayView { refs: (old(self)@.refs - 1) as nat, ..old(self)@ }),
            last == (old(self)@.refs == 1),
    {
        self.ref_count = self.ref_count - 1;
        self.ref_count == 0
    }

    /// What a `Debug` print of the array shows: the number of values and the
    /// number of slots.
    pub fn info(&self) -> (info: (usize, usize))
        requires
            self.wf(),
        ensures
            info.0 == self@.len(),
            info.1 == self@.slots.len(),
    {
        (self.len(), self.capacity())
    }
}

impl<T> Default for AtomicArray<T> {
    fn default() -> (array: Self)
        ensures
            array.wf(),
            array@ == ArrayView::<T>::unfilled(DEFAULT_ARRAY_CAP as nat),
    {
        Self::new()
    }
}

/// The lock word of an array together with the threads that stand at it.
pub struct ArrayWorld {
    pub lock: usize,
    /// Threads that hold the array in shared mode.
    pub shared: nat,
    /// Threads that have announced themselves in shared mode and wait.
    pub waiting: nat,
    /// Threads that hold the array exclusively.
    pub exclusive: nat,
}

impl ArrayWorld {
    /// The word counts two for each thread in shared mode or waiting for it and
    /// one for an exclusive holder, beside whom nobody is in shared mode.
    pub open spec fn consistent(self) -> bool {
        &&& self.lock == 2 * (self.shared + self.waiting) + self.exclusive
        &&& self.exclusive <= 1
        &&& self.exclusive == 1 ==> self.shared == 0
    }
}

/// Nobody is in shared mode while the array is held exclusively, however threads
/// announce themselves, go in and leave: each step by the lock word keeps that.
pub proof fn law_nobody_shares_an_exclusive_array(world: ArrayWorld)
    requires
        world.consistent(),
        world.lock <= usize::MAX - 2,
    ensures
        world.lock % 2 == 1 <==> world.exclusive == 1,
        world.lock % 2 == 1 ==> world.shared == 0,
        world.lock % 2 == 0 ==> (ArrayWorld {
            lock: (world.lock + 2) as usize,
            shared: world.shared + 1,
            ..world
        }).consistent(),
        world.lock % 2 == 1 ==> (ArrayWorld {
            lock: (world.lock + 2) as usize,
            waiting: world.waiting + 1,
            ..world
        }).consistent(),
        world.waiting > 0 && world.lock % 2 == 0 ==> (ArrayWorld {
            shared: world.shared + 1,
            waiting: (world.waiting - 1) as nat,
            ..world
        }).consistent(),
        world.shared > 0 ==> world.lock >= 2 && (ArrayWorld {
            lock: (world.lock - 2) as usize,
            shared: (world.shared - 1) as nat,
            ..world
        }).consistent(),
        world.lock == 0 ==> (ArrayWorld { lock: 1, exclusive: 1, ..world }).consistent(),
        world.exclusive == 1 ==> (ArrayWorld {
            lock: (world.lock - 1) as usize,
            exclusive: 0,
            ..world
        }).consistent(),
{
}

/// A push that succeeds adds its value behind those that are there and changes
/// none of them; one that fails changes nothing.
pub proof fn law_push_appends<T>(before: ArrayView<T>, after: ArrayView<T>, value: T)
    requires
        before.valid(),
        before.settled(),
        before.tail < before.slots.len(),
        after == (ArrayView {
            slots: before.slots.update(before.tail as int, Some(value)),
            tail: before.tail + 1,
            ..before
        }),
    ensures
        after.valid(),
        after.settled(),
        after.values() == before.values().push(value),
        after.len() == before.len() + 1,
{
    assert(after.values() =~= before.values().push(value));
    lemma_publish_counts(before.slots, before.tail as int, value);
}

/// Publishing one slot leaves every value that is published where it is.
pub proof fn law_published_values_stay<T>(before: ArrayView<T>, slot: int, value: T, other: int)
    requires
        before.valid(),
        0 <= slot < before.tail,
        before.slots[slot] is None,
        0 <= other < before.slots.len(),
        before.slots[other] is Some,
    ensures
        before.slots.update(slot, Some(value))[other] == before.slots[other],
        (ArrayView { slots: before.slots.update(slot, Some(value)), ..before }).valid(),
        (ArrayView { slots: before.slots.update(slot, Some(value)), ..before }).len()
            == before.len() + 1,
{
    lemma_publish_counts(before.slots, slot, value);
}

/// The lock word that the threads at an array make up tells whether it is held
/// exclusively: only then does a thread that announces itself wait.
pub proof fn law_lock_word_tells_the_exclusive_holder<T>(array: ArrayView<T>, world: ArrayWorld)
    requires
        world.consistent(),
        world.lock == array.lock,
    ensures
        array.exclusive() <==> world.exclusive == 1,
        array.lock == 0 <==> world.shared == 0 && world.waiting == 0 && world.exclusive == 0,
{
}

/// The length counts the slots that have been published, one by one.
pub proof fn law_published_slots_are_counted<T>(slots: Seq<Option<T>>, slot: Option<T>)
    ensures
        published(Seq::<Option<T>>::empty()) == 0,
        published(slots.push(slot)) == published(slots) + (if slot is Some {
            1int
        } else {
            0
        }),
{
    assert(slots.push(slot).drop_last() =~= slots);
}

/// A new array has its slots, all of them empty and none of them claimed, a free
/// lock and one handle.
pub proof fn law_a_new_array_is_empty<T>(capacity: nat, i: int)
    ensures
        ArrayView::<T>::unfilled(capacity).slots.len() == capacity,
        0 <= i < capacity ==> ArrayView::<T>::unfilled(capacity).slots[i] is None,
        ArrayView::<T>::unfilled(capacity).tail == 0,
        ArrayView::<T>::unfilled(capacity).len() == 0,
        ArrayView::<T>::unfilled(capacity).lock == 0,
        ArrayView::<T>::unfilled(capacity).refs == 1,
        ArrayView::<T>::unfilled(capacity).values().len() == 0,
{
    lemma_nothing_published(ArrayView::<T>::unfilled(capacity).slots);
}

/// Where every claimed slot has been published, the values are those of the slots,
/// in the order of the slots, and the length is their number.
pub proof fn law_values_are_those_of_the_slots<T>(array: ArrayView<T>, i: int)
    requires
        array.valid(),
    ensures
        array.settled() <==> forall|j: int| 0 <= j < array.tail ==> array.slots[j] is Some,
        array.values().len() == array.tail,
        0 <= i < array.tail && array.slots[i] is Some ==> array.slots[i] == Some(
            array.values()[i],
        ),
        array.settled() <==> array.len() == array.tail,
        array.len() <= array.tail,
{
    lemma_published_bound(array.slots, array.tail as int);
}

} // verus!
