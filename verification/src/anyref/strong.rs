//! Strong references.
use crate::anyref::inner::Erased;
use crate::anyref::weak::WeakAnyRef;
use crate::primitives::counted;
use crate::primitives::counted::{BlockView, Heap};
use std::marker::PhantomData;
use vstd::prelude::*;

verus! {

/// A strong reference to an erased value. The borrow that a call hands out
/// stands for the lock that is held meanwhile.
pub struct AnyRef<I, V> {
    ptr: usize,
    marker: PhantomData<(I, V)>,
}

impl<I, V> View for AnyRef<I, V> {
    type V = usize;

    closed spec fn view(&self) -> usize {
        self.ptr
    }
}

impl<I, V> AnyRef<I, V> {
    /// A reference to the block at `ptr`.
    pub(crate) fn at(ptr: usize) -> (this: Self)
        ensures
            this@ == ptr,
    {
        AnyRef { ptr, marker: PhantomData }
    }

    /// A reference to a new block that holds `data` of the type `type_id`.
    pub fn new(
        heap: &mut Heap<Erased<I, V>>,
        type_id: I,
        type_label: &'static str,
        data: V,
    ) -> (this: Self)
        requires
            old(heap).wf(),
            old(heap).next_addr() < counted::DANGLING,
        ensures
            final(heap).wf(),
            this@ == old(heap).next_addr(),
            final(heap).next_addr() == this@ + 1,
            final(heap).block(this@) == Some(
                BlockView {
                    strong: 1,
                    weak: 1,
                    val: Some(Erased { type_id, type_label, data }),
                },
            ),
            forall|other: usize|
                other != this@ ==> #[trigger] final(heap).block(other) == old(heap).block(other),
    {
        Self::at(heap.allocate(Erased { type_id, type_label, data }))
    }

    /// Takes the value out, if this is the only reference of any kind and the
    /// value is of the type `type_id`; otherwise the reference comes back and
    /// nothing changes.
    pub fn try_unwrap(this: Self, heap: &mut Heap<Erased<I, V>>, type_id: &I) -> (r: Result<
        V,
        Self,
    >) where I: PartialEq
        requires
            vstd::laws_eq::obeys_concrete_eq::<I>(),
            old(heap).wf(),
            old(heap).alive(this@),
        ensures
            final(heap).wf(),
            r is Ok == (old(heap).block(this@)->0.sole() && old(heap).value(this@).type_id
                == *type_id),
            r matches Ok(data) ==> data == old(heap).value(this@).data && old(heap).with_block(
                final(heap),
                this@,
                None,
            ),
            r matches Err(back) ==> back@ == this@ && old(heap).with_block(
                final(heap),
                this@,
                old(heap).block(this@),
            ),
    {
        proof {
            reveal(vstd::laws_eq::obeys_concrete_eq);
        }
        let block = heap.look(this.ptr);
        if block.strong() != 1 {
            return Err(this);
        }
        if block.weak() != 1 {
            return Err(this);
        }
        match block.get() {
            Some(erased) => {
                if !(erased.type_id == *type_id) {
                    return Err(this);
                }
            },
            None => {
                return Err(this);
            },
        }
        match heap.drop_strong(this.ptr) {
            Some(erased) => Ok(erased.data),
            None => Err(this),
        }
    }

    /// The erased value.
    #[inline]
    pub fn inner<'a>(&self, heap: &'a Heap<Erased<I, V>>) -> (erased: &'a Erased<I, V>)
        requires
            heap.wf(),
            heap.alive(self@),
        ensures
            *erased == heap.value(self@),
    {
        match heap.look(self.ptr).get() {
            Some(erased) => erased,
            None => vstd::pervasive::unreached(),
        }
    }

    /// Access to the erased value.
    #[inline]
    fn inner_mut<'a>(&self, heap: &'a mut Heap<Erased<I, V>>) -> (erased: &'a mut Erased<I, V>)
        requires
            old(heap).wf(),
            old(heap).alive(self@),
        ensures
            *erased == old(heap).value(self@),
            final(heap).wf(),
            old(heap).with_block(
                final(heap),
                self@,
                Some(BlockView { val: Some(*final(erased)), ..old(heap).block(self@)->0 }),
            ),
    {
        heap.look_mut(self.ptr).get_mut()
    }

    /// A reference to a new block that holds what `func` makes of the value,
    /// which is of the type `type_id`; this reference is given up.
    pub fn map<F: FnOnce(&V) -> V>(
        self,
        heap: &mut Heap<Erased<I, V>>,
        type_id: &I,
        new_type_id: I,
        new_type_label: &'static str,
        func: F,
    ) -> (mapped: AnyRef<I, V>) where I: PartialEq
        requires
            vstd::laws_eq::obeys_concrete_eq::<I>(),
            old(heap).wf(),
            old(heap).alive(self@),
            old(heap).value(self@).type_id == *type_id,
            old(heap).next_addr() < counted::DANGLING,
            call_requires(func, (&old(heap).value(self@).data,)),
        ensures
            final(heap).wf(),
            mapped@ == old(heap).next_addr(),
            final(heap).block(mapped@) is Some,
            final(heap).block(mapped@)->0.strong == 1,
            final(heap).block(mapped@)->0.weak == 1,
            final(heap).value(mapped@).type_id == new_type_id,
            final(heap).value(mapped@).type_label == new_type_label,
            call_ensures(
                func,
                (&old(heap).value(self@).data,),
                final(heap).value(mapped@).data,
            ),
            final(heap).block(self@) == (if old(heap).block(self@)->0.sole() {
                None
            } else {
                Some(old(heap).block(self@)->0.strong_dropped())
            }),
            forall|other: usize|
                other != mapped@ && other != self@ ==> #[trigger] final(heap).block(other) == old(heap).block(other),
    {
        let made: V = func(self.as_ref(heap, type_id));
        let mapped: AnyRef<I, V> = AnyRef::new(heap, new_type_id, new_type_label, made);
        self.drop_ref(heap);
        mapped
    }

    /// The value, if it is of the type `type_id`, in shared mode.
    pub fn try_downcast_ref<'a>(&self, heap: &'a Heap<Erased<I, V>>, type_id: &I) -> (data: Option<
        &'a V,
    >) where I: PartialEq
        requires
            vstd::laws_eq::obeys_concrete_eq::<I>(),
            heap.wf(),
            heap.alive(self@),
        ensures
            data is Some == (heap.value(self@).type_id == *type_id),
            data matches Some(d) ==> *d == heap.value(self@).data,
    {
        proof {
            reveal(vstd::laws_eq::obeys_concrete_eq);
        }
        let erased: &'a Erased<I, V> = self.inner(heap);
        if erased.type_id == *type_id {
            Some(&erased.data)
        } else {
            None
        }
    }

    /// Access to the value, if it is of the type `type_id`, in exclusive mode.
    pub fn try_downcast_mut<'a>(&self, heap: &'a mut Heap<Erased<I, V>>, type_id: &I) -> (data:
        Option<&'a mut V>) where I: PartialEq
        requires
            vstd::laws_eq::obeys_concrete_eq::<I>(),
            old(heap).wf(),
            old(heap).alive(self@),
        ensures
            final(heap).wf(),
            data is Some == (old(heap).value(self@).type_id == *type_id),
            data is None ==> old(heap).with_block(
                final(heap),
                self@,
                old(heap).block(self@),
            ),
            data matches Some(d) ==> *d == old(heap).value(self@).data && old(heap).with_block(
                final(heap),
                self@,
                Some(
                    BlockView {
                        val: Some(Erased { data: *final(d), ..old(heap).value(self@) }),
                        ..old(heap).block(self@)->0
                    },
                ),
            ),
    {
        proof {
            reveal(vstd::laws_eq::obeys_concrete_eq);
        }
        let matches: bool = self.inner(heap).type_id == *type_id;
        if matches {
            Some(&mut self.inner_mut(heap).data)
        } else {
            None
        }
    }

    /// The value, which is of the type `type_id`, in shared mode.
    pub fn as_ref<'a>(&self, heap: &'a Heap<Erased<I, V>>, type_id: &I) -> (data: &'a V) where
        I: PartialEq,

        requires
            vstd::laws_eq::obeys_concrete_eq::<I>(),
            heap.wf(),
            heap.alive(self@),
            heap.value(self@).type_id == *type_id,
        ensures
            *data == heap.value(self@).data,
    {
        match self.try_downcast_ref(heap, type_id) {
            Some(data) => data,
            None => vstd::pervasive::unreached(),
        }
    }

    /// Access to the value, which is of the type `type_id`, in exclusive mode.
    pub fn as_mut<'a>(&self, heap: &'a mut Heap<Erased<I, V>>, type_id: &I) -> (data: &'a mut V)
        where I: PartialEq
        requires
            vstd::laws_eq::obeys_concrete_eq::<I>(),
            old(heap).wf(),
            old(heap).alive(self@),
            old(heap).value(self@).type_id == *type_id,
        ensures
            final(heap).wf(),
            *data == old(heap).value(self@).data,
            old(heap).with_block(
                final(heap),
                self@,
                Some(
                    BlockView {
                        val: Some(Erased { data: *final(data), ..old(heap).value(self@) }),
                        ..old(heap).block(self@)->0
                    },
                ),
            ),
    {
        match self.try_downcast_mut(heap, type_id) {
            Some(data) => data,
            None => vstd::pervasive::unreached(),
        }
    }

    /// The name of the type that the value was made with.
    pub fn type_label(&self, heap: &Heap<Erased<I, V>>) -> (name: &'static str)
        requires
            heap.wf(),
            heap.alive(self@),
        ensures
            name == heap.value(self@).type_label,
    {
        self.inner(heap).type_label
    }

    /// Replaces the value and its type, for every reference to the block. The
    /// name of the type stays the one that the block was made with.
    pub fn fill(this: Self, heap: &mut Heap<Erased<I, V>>, type_id: I, data: V) -> (back: Self)
        requires
            old(heap).wf(),
            old(heap).alive(this@),
        ensures
            final(heap).wf(),
            back@ == this@,
            old(heap).with_block(
                final(heap),
                this@,
                Some(
                    BlockView {
                        val: Some(Erased { type_id, data, ..old(heap).value(this@) }),
                        ..old(heap).block(this@)->0
                    },
                ),
            ),
    {
        let erased: &mut Erased<I, V> = this.inner_mut(heap);
        erased.data = data;
        erased.type_id = type_id;
        this
    }

    /// Whether this is the only strong reference.
    pub fn is_unique(this: &Self, heap: &mut Heap<Erased<I, V>>) -> (unique: bool)
        requires
            old(heap).wf(),
            old(heap).alive(this@),
        ensures
            final(heap).wf(),
            unique == (old(heap).block(this@)->0.strong == 1),
            old(heap).with_block(final(heap), this@, old(heap).block(this@)),
    {
        heap.look_mut(this.ptr).is_unique()
    }

    /// A weak reference to the same block. There is none while the weak count is
    /// locked; the caller then tries again.
    pub fn downgrade(&self, heap: &mut Heap<Erased<I, V>>) -> (weak: Option<WeakAnyRef<I, V>>)
        requires
            old(heap).wf(),
            old(heap).alive(self@),
            old(heap).block(self@)->0.weak <= counted::MAX_REFCOUNT || old(heap).block(
                self@,
            )->0.weak == counted::LOCKED_WEAK,
        ensures
            final(heap).wf(),
            weak is Some == (old(heap).block(self@)->0.weak != counted::LOCKED_WEAK),
            weak matches Some(w) ==> w@ == self@ && old(heap).with_block(
                final(heap),
                self@,
                Some(
                    BlockView {
                        weak: (old(heap).block(self@)->0.weak + 1) as usize,
                        ..old(heap).block(self@)->0
                    },
                ),
            ),
            weak is None ==> old(heap).with_block(
                final(heap),
                self@,
                old(heap).block(self@),
            ),
    {
        if heap.look_mut(self.ptr).downgrade() {
            Some(WeakAnyRef::at(self.ptr))
        } else {
            None
        }
    }

    /// The number of weak references.
    #[inline]
    pub fn weak_count(this: &Self, heap: &Heap<Erased<I, V>>) -> (n: usize)
        requires
            heap.wf(),
            heap.alive(this@),
        ensures
            n == (if heap.block(this@)->0.weak == counted::LOCKED_WEAK {
                0
            } else {
                heap.block(this@)->0.weak - 1
            }),
    {
        heap.look(this.ptr).weak_handles()
    }

    /// The number of strong references.
    #[inline]
    pub fn strong_count(this: &Self, heap: &Heap<Erased<I, V>>) -> (n: usize)
        requires
            heap.alive(this@),
        ensures
            n == heap.block(this@)->0.strong,
    {
        heap.look(this.ptr).strong()
    }

    /// Whether both references are to the same block.
    #[inline]
    pub fn ptr_eq(this: &Self, other: &Self) -> (same: bool)
        ensures
            same == (this@ == other@),
    {
        this.ptr == other.ptr
    }

    /// The address of the block; the reference lives on in it.
    pub fn into_raw(self) -> (addr: usize)
        ensures
            addr == self@,
    {
        self.ptr
    }

    /// The reference that lives in the address of a block.
    pub fn from_raw(addr: usize) -> (this: Self)
        ensures
            this@ == addr,
    {
        Self::at(addr)
    }

    /// One more strong reference to the same block.
    #[inline]
    pub fn clone_ref(&self, heap: &mut Heap<Erased<I, V>>) -> (other: AnyRef<I, V>)
        requires
            old(heap).wf(),
            old(heap).alive(self@),
            old(heap).block(self@)->0.strong <= counted::MAX_REFCOUNT,
        ensures
            final(heap).wf(),
            other@ == self@,
            old(heap).with_block(
                final(heap),
                self@,
                Some(
                    BlockView {
                        strong: (old(heap).block(self@)->0.strong + 1) as usize,
                        ..old(heap).block(self@)->0
                    },
                ),
            ),
    {
        heap.look_mut(self.ptr).clone_strong();
        Self::at(self.ptr)
    }

    /// Gives the reference up. The last strong one hands the value over to be
    /// dropped.
    pub fn drop_ref(self, heap: &mut Heap<Erased<I, V>>) -> (value: Option<Erased<I, V>>)
        requires
            old(heap).wf(),
            old(heap).alive(self@),
        ensures
            final(heap).wf(),
            value == (if old(heap).block(self@)->0.strong == 1 {
                old(heap).block(self@)->0.val
            } else {
                None
            }),
            old(heap).with_block(
                final(heap),
                self@,
                if old(heap).block(self@)->0.sole() {
                    None
                } else {
                    Some(old(heap).block(self@)->0.strong_dropped())
                },
            ),
    {
        heap.drop_strong(self.ptr)
    }

    /// A reference to a new block that holds the default value of `T`, which
    /// `erase` makes a value of any type.
    pub fn default_with<T: Default, E: FnOnce(T) -> V>(
        heap: &mut Heap<Erased<I, V>>,
        type_id: I,
        type_label: &'static str,
        erase: E,
    ) -> (this: Self)
        requires
            old(heap).wf(),
            old(heap).next_addr() < counted::DANGLING,
            call_requires(T::default, ()),
            forall|value: T| #[trigger]
                call_ensures(T::default, (), value) ==> call_requires(erase, (value,)),
        ensures
            final(heap).wf(),
            this@ == old(heap).next_addr(),
            final(heap).next_addr() == this@ + 1,
            final(heap).block(this@) is Some,
            final(heap).block(this@)->0.strong == 1,
            final(heap).block(this@)->0.weak == 1,
            exists|value: T, data: V| #[trigger]
                call_ensures(erase, (value,), data) && call_ensures(T::default, (), value) && {
                &&& final(heap).value(this@) == (Erased { type_id, type_label, data })
                },
            forall|other: usize|
                other != this@ ==> #[trigger] final(heap).block(other) == old(heap).block(other),
    {
        Self::new(heap, type_id, type_label, erase(T::default()))
    }

    /// What a `Debug` print of the reference shows: what it is, the name of
    /// the type, and the strong and the weak count of the block.
    pub fn info(&self, heap: &Heap<Erased<I, V>>) -> (info: (
        &'static str,
        &'static str,
        usize,
        usize,
    ))
        requires
            heap.wf(),
            heap.alive(self@),
        ensures
            info.0@ == "AnyRef"@,
            info.1 == heap.value(self@).type_label,
            info.2 == heap.block(self@)->0.strong,
            info.3 == heap.block(self@)->0.weak,
    {
        let block = heap.look(self.ptr);
        ("AnyRef", self.type_label(heap), block.strong(), block.weak())
    }
}

/// Filling a block through one reference is seen through every other one, and
/// only its value and type change.
pub proof fn law_fill_is_shared<I, V>(
    before: Heap<Erased<I, V>>,
    after: Heap<Erased<I, V>>,
    addr: usize,
    type_id: I,
    data: V,
)
    requires
        before.alive(addr),
        before.with_block(
            &after,
            addr,
            Some(
                BlockView {
                    val: Some(Erased { type_id, data, ..before.value(addr) }),
                    ..before.block(addr)->0
                },
            ),
        ),
    ensures
        after.alive(addr),
        after.value(addr).data == data,
        after.value(addr).type_id == type_id,
        after.value(addr).type_label == before.value(addr).type_label,
        after.block(addr)->0.strong == before.block(addr)->0.strong,
        after.block(addr)->0.weak == before.block(addr)->0.weak,
{
}

} // verus!
