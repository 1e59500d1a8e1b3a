//! Strong references.
use crate::arw::weak::WeakArw;
use crate::primitives::counted;
use crate::primitives::counted::{BlockView, Heap};
use std::marker::PhantomData;
use vstd::prelude::*;

verus! {

/// A strong reference to a value of type `T`. The borrow that a call hands out
/// stands for the lock that is held meanwhile.
pub struct Arw<T> {
    ptr: usize,
    marker: PhantomData<T>,
}

impl<T> View for Arw<T> {
    type V = usize;

    closed spec fn view(&self) -> usize {
        self.ptr
    }
}

impl<T> Arw<T> {
    /// A reference to the block at `ptr`.
    pub(crate) fn at(ptr: usize) -> (this: Self)
        ensures
            this@ == ptr,
    {
        Arw { ptr, marker: PhantomData }
    }

    /// A reference to a new block that holds `value`.
    pub fn new(heap: &mut Heap<T>, value: T) -> (this: Self)
        requires
            old(heap).wf(),
            old(heap).next_addr() < counted::DANGLING,
        ensures
            final(heap).wf(),
            this@ == old(heap).next_addr(),
            final(heap).next_addr() == this@ + 1,
            final(heap).block(this@) == Some(
                BlockView { strong: 1, weak: 1, val: Some(value) },
            ),
            forall|other: usize|
                other != this@ ==> #[trigger] final(heap).block(other) == old(heap).block(other),
    {
        Self::at(heap.allocate(value))
    }

    /// Takes the value out, if this is the only reference of any kind; otherwise
    /// the reference comes back and nothing changes.
    pub fn try_unwrap(this: Self, heap: &mut Heap<T>) -> (r: Result<T, Self>)
        requires
            old(heap).wf(),
            old(heap).alive(this@),
        ensures
            final(heap).wf(),
            r is Ok == old(heap).block(this@)->0.sole(),
            r matches Ok(value) ==> value == old(heap).value(this@) && old(heap).with_block(
                final(heap),
                this@,
                None,
            ),
            r matches Err(back) ==> back@ == this@ && old(heap).with_block(
                final(heap),
                this@,
                old(heap).block(this@),
            ),
    {
        let block = heap.look(this.ptr);
        if block.strong() != 1 {
            return Err(this);
        }
        if block.weak() != 1 {
            return Err(this);
        }
        match heap.drop_strong(this.ptr) {
            Some(value) => Ok(value),
            None => Err(this),
        }
    }

    /// A reference to a new block, in `target`, that holds what `func` makes of
    /// the value; this reference is given up.
    pub fn map<U, F: FnOnce(&T) -> U>(
        self,
        heap: &mut Heap<T>,
        target: &mut Heap<U>,
        func: F,
    ) -> (mapped: Arw<U>)
        requires
            old(heap).wf(),
            old(heap).alive(self@),
            old(target).wf(),
            old(target).next_addr() < counted::DANGLING,
            call_requires(func, (&old(heap).value(self@),)),
        ensures
            final(heap).wf(),
            final(target).wf(),
            mapped@ == old(target).next_addr(),
            final(target).block(mapped@) is Some,
            final(target).block(mapped@)->0.strong == 1,
            final(target).block(mapped@)->0.weak == 1,
            call_ensures(func, (&old(heap).value(self@),), final(target).value(mapped@)),
            forall|other: usize|
                other != mapped@ ==> #[trigger] final(target).block(other) == old(target).block(
                    other,
                ),
            old(heap).with_block(
                final(heap),
                self@,
                if old(heap).block(self@)->0.sole() {
                    None
                } else {
                    Some(old(heap).block(self@)->0.strong_dropped())
                },
            ),
    {
        let made: U = func(self.as_ref(heap));
        let mapped: Arw<U> = Arw::new(target, made);
        self.drop_ref(heap);
        mapped
    }

    /// The value, in shared mode.
    pub fn as_ref<'a>(&self, heap: &'a Heap<T>) -> (value: &'a T)
        requires
            heap.wf(),
            heap.alive(self@),
        ensures
            *value == heap.value(self@),
    {
        match heap.look(self.ptr).get() {
            Some(value) => value,
            None => vstd::pervasive::unreached(),
        }
    }

    /// Access to the value, in exclusive mode.
    pub fn as_mut<'a>(&self, heap: &'a mut Heap<T>) -> (value: &'a mut T)
        requires
            old(heap).wf(),
            old(heap).alive(self@),
        ensures
            *value == old(heap).value(self@),
            final(heap).wf(),
            old(heap).with_block(
                final(heap),
                self@,
                Some(BlockView { val: Some(*final(value)), ..old(heap).block(self@)->0 }),
            ),
    {
        heap.look_mut(self.ptr).get_mut()
    }

    /// Whether this is the only strong reference.
    pub fn is_unique(this: &Self, heap: &mut Heap<T>) -> (unique: bool)
        requires
            old(heap).wf(),
            old(heap).alive(this@),
        ensures
            final(heap).wf(),
            unique == (old(heap).block(this@)->0.strong == 1),
            old(heap).with_block(final(heap), this@, old(heap).block(this@)),
    {
        heap.look_mut(this.ptr).is_unique()
    }

    /// A weak reference to the same block. There is none while the weak count is
    /// locked; the caller then tries again.
    pub fn downgrade(&self, heap: &mut Heap<T>) -> (weak: Option<WeakArw<T>>)
        requires
            old(heap).wf(),
            old(heap).alive(self@),
            old(heap).block(self@)->0.weak <= counted::MAX_REFCOUNT || old(heap).block(
                self@,
            )->0.weak == counted::LOCKED_WEAK,
        ensures
            final(heap).wf(),
            weak is Some == (old(heap).block(self@)->0.weak != counted::LOCKED_WEAK),
            weak matches Some(w) ==> w@ == self@ && old(heap).with_block(
                final(heap),
                self@,
                Some(
                    BlockView {
                        weak: (old(heap).block(self@)->0.weak + 1) as usize,
                        ..old(heap).block(self@)->0
                    },
                ),
            ),
            weak is None ==> old(heap).with_block(
                final(heap),
                self@,
                old(heap).block(self@),
            ),
    {
        if heap.look_mut(self.ptr).downgrade() {
            Some(WeakArw::at(self.ptr))
        } else {
            None
        }
    }

    /// The number of weak references.
    #[inline]
    pub fn weak_count(this: &Self, heap: &Heap<T>) -> (n: usize)
        requires
            heap.wf(),
            heap.alive(this@),
        ensures
            n == (if heap.block(this@)->0.weak == counted::LOCKED_WEAK {
                0
            } else {
                heap.block(this@)->0.weak - 1
            }),
    {
        heap.look(this.ptr).weak_handles()
    }

    /// The number of strong references.
    #[inline]
    pub fn strong_count(this: &Self, heap: &Heap<T>) -> (n: usize)
        requires
            heap.alive(this@),
        ensures
            n == heap.block(this@)->0.strong,
    {
        heap.look(this.ptr).strong()
    }

    /// Whether both references are to the same block.
    #[inline]
    pub fn ptr_eq(this: &Self, other: &Self) -> (same: bool)
        ensures
            same == (this@ == other@),
    {
        this.ptr == other.ptr
    }

    /// The address of the block; the reference lives on in it.
    pub fn into_raw(self) -> (addr: usize)
        ensures
            addr == self@,
    {
        self.ptr
    }

    /// The reference that lives in the address of a block.
    pub fn from_raw(addr: usize) -> (this: Self)
        ensures
            this@ == addr,
    {
        Self::at(addr)
    }

    /// One more strong reference to the same block.
    #[inline]
    pub fn clone_ref(&self, heap: &mut Heap<T>) -> (other: Arw<T>)
        requires
            old(heap).wf(),
            old(heap).alive(self@),
            old(heap).block(self@)->0.strong < counted::MAX_REFCOUNT,
        ensures
            final(heap).wf(),
            other@ == self@,
            old(heap).with_block(
                final(heap),
                self@,
                Some(
                    BlockView {
                        strong: (old(heap).block(self@)->0.strong + 1) as usize,
                        ..old(heap).block(self@)->0
                    },
                ),
            ),
    {
        heap.look_mut(self.ptr).clone_strong();
        Self::at(self.ptr)
    }

    /// A reference to a new block that holds the default value.
    pub fn default_in(heap: &mut Heap<T>) -> (this: Self) where T: Default
        requires
            old(heap).wf(),
            old(heap).next_addr() < counted::DANGLING,
            call_requires(T::default, ()),
        ensures
            final(heap).wf(),
            this@ == old(heap).next_addr(),
            final(heap).block(this@) is Some,
            final(heap).block(this@)->0.strong == 1,
            final(heap).block(this@)->0.weak == 1,
            call_ensures(T::default, (), final(heap).value(this@)),
            forall|other: usize|
                other != this@ ==> #[trigger] final(heap).block(other) == old(heap).block(other),
    {
        Self::new(heap, T::default())
    }

    /// Replaces the value, for every reference to the block.
    pub fn fill(this: Self, heap: &mut Heap<T>, value: T) -> (back: Self)
        requires
            old(heap).wf(),
            old(heap).alive(this@),
        ensures
            final(heap).wf(),
            back@ == this@,
            old(heap).with_block(
                final(heap),
                this@,
                Some(BlockView { val: Some(value), ..old(heap).block(this@)->0 }),
            ),
    {
        *this.as_mut(heap) = value;
        this
    }

    /// Gives the reference up. The last strong one hands the value over to be
    /// dropped.
    pub fn drop_ref(self, heap: &mut Heap<T>) -> (value: Option<T>)
        requires
            old(heap).wf(),
            old(heap).alive(self@),
        ensures
            final(heap).wf(),
            value == (if old(heap).block(self@)->0.strong == 1 {
                old(heap).block(self@)->0.val
            } else {
                None
            }),
            old(heap).with_block(
                final(heap),
                self@,
                if old(heap).block(self@)->0.sole() {
                    None
                } else {
                    Some(old(heap).block(self@)->0.strong_dropped())
                },
            ),
    {
        heap.drop_strong(self.ptr)
    }

    /// What a `Debug` print of the reference shows: what it is, and the strong
    /// and the weak count of the block.
    pub fn info(&self, heap: &Heap<T>) -> (info: (&'static str, usize, usize))
        requires
            heap.alive(self@),
        ensures
            info.0@ == "Arw"@,
            info.1 == heap.block(self@)->0.strong,
            info.2 == heap.block(self@)->0.weak,
    {
        let block = heap.look(self.ptr);
        ("Arw", block.strong(), block.weak())
    }
}

/// What is written through one reference is read through every reference to the
/// same block, and nothing else changes.
pub proof fn law_write_is_seen_by_every_reference<T>(
    before: Heap<T>,
    after: Heap<T>,
    writer: Arw<T>,
    reader: Arw<T>,
    value: T,
)
    requires
        before.alive(writer@),
        before.alive(reader@),
        before.with_block(
            &after,
            writer@,
            Some(BlockView { val: Some(value), ..before.block(writer@)->0 }),
        ),
    ensures
        after.alive(reader@),
        reader@ == writer@ ==> after.value(reader@) == value,
        reader@ != writer@ ==> after.value(reader@) == before.value(reader@),
        after.block(reader@)->0.strong == before.block(reader@)->0.strong,
        after.block(reader@)->0.weak == before.block(reader@)->0.weak,
{
}

} // verus!
