//! Strong references.
use crate::any_ref::inner::AnyRefInner;
use crate::any_ref::weak::WeakAnyRef;
use crate::mutex::guards::{WatchGuardMut, WatchGuardRef};
use crate::mutex::mutex;
use crate::mutex::mutex::{Mutex, MutexWake};
use crate::primitives::attempt::Attempt;
use crate::primitives::counted;
use crate::primitives::counted::{BlockView, Heap};
use std::marker::PhantomData;
use vstd::prelude::*;

verus! {

/// A strong reference to a value in a block with a lock. A guard that a call
/// hands out holds the lock.
pub struct AnyRef<I, V> {
    ptr: usize,
    marker: PhantomData<(I, V)>,
}

impl<I, V> View for AnyRef<I, V> {
    type V = usize;

    closed spec fn view(&self) -> usize {
        self.ptr
    }
}

impl<I, V> AnyRef<I, V> {
    /// A reference to the block at `ptr`.
    pub(crate) fn at(ptr: usize) -> (this: Self)
        ensures
            this@ == ptr,
    {
        AnyRef { ptr, marker: PhantomData }
    }

    /// A reference to a new block that holds `data` of the type `type_id`.
    pub fn new(
        heap: &mut Heap<AnyRefInner<I, V>>,
        type_id: I,
        type_label: &'static str,
        data: V,
    ) -> (this: Self)
        requires
            old(heap).wf(),
            old(heap).next_addr() < counted::DANGLING,
        ensures
            final(heap).wf(),
            this@ == old(heap).next_addr(),
            final(heap).next_addr() == this@ + 1,
            final(heap).block(this@) is Some,
            final(heap).block(this@)->0.strong == 1,
            final(heap).block(this@)->0.weak == 1,
            final(heap).value(this@).holds(type_id, type_label, data),
            mutex::decode(final(heap).value(this@).lock@.word).idle(),
            forall|other: usize|
                other != this@ ==> #[trigger] final(heap).block(other) == old(heap).block(other),
    {
        Self::at(heap.allocate(AnyRefInner::new(type_id, type_label, data)))
    }

    /// Takes the value out, if this is the only strong reference; otherwise the
    /// reference comes back, and only the lock has been taken and given back.
    /// Nobody holds the lock, and the value is of the type that the caller takes
    /// it for.
    pub fn try_unwrap(this: Self, heap: &mut Heap<AnyRefInner<I, V>>) -> (r: Result<V, Self>)
        requires
            old(heap).wf(),
            old(heap).alive(this@),
            !mutex::decode(old(heap).value(this@).lock@.word).held(),
        ensures
            final(heap).wf(),
            r is Ok == (old(heap).block(this@)->0.strong == 1),
            r matches Ok(data) ==> data == old(heap).value(this@).data && old(heap).with_block(
                final(heap),
                this@,
                if old(heap).block(this@)->0.weak == 1 {
                    None
                } else {
                    Some(old(heap).block(this@)->0.strong_dropped())
                },
            ),
            r matches Err(back) ==> {
                &&& back@ == this@
                &&& old(heap).with_block(final(heap), this@, final(heap).block(this@))
                &&& final(heap).block(this@) is Some
                &&& final(heap).block(this@)->0.strong == old(heap).block(this@)->0.strong
                &&& final(heap).block(this@)->0.weak == old(heap).block(this@)->0.weak
                &&& final(heap).value(this@).passed(
                    old(heap).value(this@).lock@,
                    old(heap).value(this@).type_id,
                    old(heap).value(this@).type_label,
                    old(heap).value(this@).data,
                )
            },
    {
        this.lock_mut(heap).lock_exclusive();
        let sole: bool = heap.look(this.ptr).strong() == 1;
        if !sole {
            this.lock_mut(heap).unlock_exclusive();
            return Err(this);
        }
        match heap.drop_strong(this.ptr) {
            Some(inner) => Ok(inner.data),
            None => Err(this),
        }
    }

    /// Access to the lock of the block.
    pub fn lock_mut<'a>(&self, heap: &'a mut Heap<AnyRefInner<I, V>>) -> (lock: &'a mut Mutex)
        requires
            old(heap).wf(),
            old(heap).alive(self@),
        ensures
            *lock == old(heap).value(self@).lock,
            final(heap).wf(),
            old(heap).with_block(
                final(heap),
                self@,
                Some(
                    BlockView {
                        val: Some(
                            AnyRefInner { lock: *final(lock), ..old(heap).value(self@) },
                        ),
                        ..old(heap).block(self@)->0
                    },
                ),
            ),
    {
        &mut self.inner_mut(heap).lock
    }

    /// Whether the lock of the block is held exclusively.
    pub fn is_locked(&self, heap: &Heap<AnyRefInner<I, V>>) -> (locked: bool)
        requires
            heap.wf(),
            heap.alive(self@),
        ensures
            locked == mutex::decode(heap.value(self@).lock@.word).writer,
    {
        self.inner(heap).lock.is_locked_exclusive()
    }

    /// What the block holds.
    #[inline]
    pub fn inner<'a>(&self, heap: &'a Heap<AnyRefInner<I, V>>) -> (erased: &'a AnyRefInner<I, V>)
        requires
            heap.wf(),
            heap.alive(self@),
        ensures
            *erased == heap.value(self@),
    {
        match heap.look(self.ptr).get() {
            Some(erased) => erased,
            None => vstd::pervasive::unreached(),
        }
    }

    /// Access to what the block holds.
    #[inline]
    fn inner_mut<'a>(&self, heap: &'a mut Heap<AnyRefInner<I, V>>) -> (erased: &'a mut AnyRefInner<I, V>)
        requires
            old(heap).wf(),
            old(heap).alive(self@),
        ensures
            *erased == old(heap).value(self@),
            final(heap).wf(),
            old(heap).with_block(
                final(heap),
                self@,
                Some(BlockView { val: Some(*final(erased)), ..old(heap).block(self@)->0 }),
            ),
    {
        heap.look_mut(self.ptr).get_mut()
    }

    /// A reference to a new block that holds what `func` makes of the value,
    /// which is of the type `type_id`; this reference is given up. No writer holds
    /// the lock of the block.
    pub fn map<F: FnOnce(&V) -> V>(
        self,
        heap: &mut Heap<AnyRefInner<I, V>>,
        type_id: &I,
        new_type_id: I,
        new_type_label: &'static str,
        func: F,
    ) -> (mapped: AnyRef<I, V>) where I: PartialEq
        requires
            vstd::laws_eq::obeys_concrete_eq::<I>(),
            old(heap).wf(),
            old(heap).alive(self@),
            old(heap).value(self@).type_id == *type_id,
            !mutex::decode(old(heap).value(self@).lock@.word).writer,
            mutex::decode(old(heap).value(self@).lock@.word).readers + 1 < mutex::writer_mark(),
            old(heap).next_addr() < counted::DANGLING,
            call_requires(func, (&old(heap).value(self@).data,)),
        ensures
            final(heap).wf(),
            mapped@ == old(heap).next_addr(),
            final(heap).block(mapped@) is Some,
            final(heap).block(mapped@)->0.strong == 1,
            final(heap).block(mapped@)->0.weak == 1,
            final(heap).value(mapped@).type_id == new_type_id,
            final(heap).value(mapped@).type_label == new_type_label,
            call_ensures(
                func,
                (&old(heap).value(self@).data,),
                final(heap).value(mapped@).data,
            ),
            old(heap).block(self@)->0.strong == 1 ==> final(heap).block(self@) == (if old(
                heap,
            ).block(self@)->0.sole() {
                None
            } else {
                Some(old(heap).block(self@)->0.strong_dropped())
            }),
            old(heap).block(self@)->0.strong > 1 ==> {
                &&& final(heap).block(self@) is Some
                &&& final(heap).block(self@)->0.strong == old(heap).block(self@)->0.strong - 1
                &&& final(heap).block(self@)->0.weak == old(heap).block(self@)->0.weak
                &&& final(heap).value(self@).holds(
                    old(heap).value(self@).type_id,
                    old(heap).value(self@).type_label,
                    old(heap).value(self@).data,
                )
                &&& old(heap).value(self@).lock@.passed_shared(final(heap).value(self@).lock@)
            },
            forall|other: usize|
                other != mapped@ && other != self@ ==> #[trigger] final(heap).block(other) == old(heap).block(other),
    {
        let guard: WatchGuardRef<'_, V> = self.as_ref(heap, type_id);
        let made: V = func(guard.deref());
        let _wake: MutexWake = guard.unlock();
        let mapped: AnyRef<I, V> = AnyRef::new(heap, new_type_id, new_type_label, made);
        self.drop_ref(heap);
        mapped
    }

    /// A guard for the value, if it is of the type `type_id`, in shared mode. No
    /// writer holds the lock of its block.
    pub fn try_downcast_ref<'a>(
        &self,
        heap: &'a mut Heap<AnyRefInner<I, V>>,
        type_id: &I,
    ) -> (guard: Option<WatchGuardRef<'a, V>>) where I: PartialEq
        requires
            vstd::laws_eq::obeys_concrete_eq::<I>(),
            old(heap).wf(),
            old(heap).alive(self@),
            old(heap).value(self@).type_id == *type_id ==> !mutex::decode(
                old(heap).value(self@).lock@.word,
            ).writer && mutex::decode(old(heap).value(self@).lock@.word).readers + 1
                < mutex::writer_mark(),
        ensures
            final(heap).wf(),
            guard is Some == (old(heap).value(self@).type_id == *type_id),
            guard is None ==> old(heap).with_block(
                final(heap),
                self@,
                old(heap).block(self@),
            ),
            guard matches Some(g) ==> {
                &&& *g.data == old(heap).value(self@).data
                &&& old(heap).value(self@).lock@.same_but_word(g.lock@)
                &&& mutex::decode(g.lock@.word) == (mutex::WordView {
                    readers: mutex::decode(old(heap).value(self@).lock@.word).readers + 1,
                    ..mutex::decode(old(heap).value(self@).lock@.word)
                })
                &&& old(heap).with_block(
                    final(heap),
                    self@,
                    Some(
                        BlockView {
                            val: Some(
                                AnyRefInner { lock: *final(g.lock), ..old(heap).value(self@) },
                            ),
                            ..old(heap).block(self@)->0
                        },
                    ),
                )
            },
    {
        proof {
            reveal(vstd::laws_eq::obeys_concrete_eq);
        }
        let matches: bool = self.inner(heap).type_id == *type_id;
        if !matches {
            return None;
        }
        let erased: &'a mut AnyRefInner<I, V> = self.inner_mut(heap);
        match erased.lock.lock_shared() {
            Attempt::Acquired => Some(WatchGuardRef::new(&erased.data, &mut erased.lock)),
            Attempt::MustWait => vstd::pervasive::unreached(),
        }
    }

    /// A guard for the value, if it is of the type `type_id`, in exclusive mode.
    /// Nobody holds the lock of its block.
    pub fn try_downcast_mut<'a>(
        &self,
        heap: &'a mut Heap<AnyRefInner<I, V>>,
        type_id: &I,
    ) -> (guard: Option<WatchGuardMut<'a, V>>) where I: PartialEq
        requires
            vstd::laws_eq::obeys_concrete_eq::<I>(),
            old(heap).wf(),
            old(heap).alive(self@),
            old(heap).value(self@).type_id == *type_id ==> !mutex::decode(
                old(heap).value(self@).lock@.word,
            ).held(),
        ensures
            final(heap).wf(),
            guard is Some == (old(heap).value(self@).type_id == *type_id),
            guard is None ==> old(heap).with_block(
                final(heap),
                self@,
                old(heap).block(self@),
            ),
            guard matches Some(g) ==> {
                &&& *g.data == old(heap).value(self@).data
                &&& old(heap).value(self@).lock@.same_but_word(g.lock@)
                &&& mutex::decode(g.lock@.word) == (mutex::WordView {
                    writer: true,
                    ..mutex::decode(old(heap).value(self@).lock@.word)
                })
                &&& old(heap).with_block(
                    final(heap),
                    self@,
                    Some(
                        BlockView {
                            val: Some(
                                AnyRefInner {
                                    data: *final(g.data),
                                    lock: *final(g.lock),
                                    ..old(heap).value(self@)
                                },
                            ),
                            ..old(heap).block(self@)->0
                        },
                    ),
                )
            },
    {
        proof {
            reveal(vstd::laws_eq::obeys_concrete_eq);
        }
        let matches: bool = self.inner(heap).type_id == *type_id;
        if !matches {
            return None;
        }
        let erased: &'a mut AnyRefInner<I, V> = self.inner_mut(heap);
        match erased.lock.lock_exclusive() {
            Attempt::Acquired => Some(WatchGuardMut::new(&mut erased.data, &mut erased.lock)),
            Attempt::MustWait => vstd::pervasive::unreached(),
        }
    }

    /// A guard for the value, which is of the type `type_id`, in shared mode. No
    /// writer holds the lock of the block.
    pub fn as_ref<'a>(&self, heap: &'a mut Heap<AnyRefInner<I, V>>, type_id: &I) -> (guard:
        WatchGuardRef<'a, V>) where I: PartialEq
        requires
            vstd::laws_eq::obeys_concrete_eq::<I>(),
            old(heap).wf(),
            old(heap).alive(self@),
            old(heap).value(self@).type_id == *type_id,
            !mutex::decode(old(heap).value(self@).lock@.word).writer,
            mutex::decode(old(heap).value(self@).lock@.word).readers + 1 < mutex::writer_mark(),
        ensures
            final(heap).wf(),
            *guard.data == old(heap).value(self@).data,
            old(heap).value(self@).lock@.same_but_word(guard.lock@),
            mutex::decode(guard.lock@.word) == (mutex::WordView {
                readers: mutex::decode(old(heap).value(self@).lock@.word).readers + 1,
                ..mutex::decode(old(heap).value(self@).lock@.word)
            }),
            old(heap).with_block(
                final(heap),
                self@,
                Some(
                    BlockView {
                        val: Some(
                            AnyRefInner { lock: *final(guard.lock), ..old(heap).value(self@) },
                        ),
                        ..old(heap).block(self@)->0
                    },
                ),
            ),
    {
        match self.try_downcast_ref(heap, type_id) {
            Some(guard) => guard,
            None => vstd::pervasive::unreached(),
        }
    }

    /// A guard for the value, which is of the type `type_id`, in exclusive mode.
    /// Nobody holds the lock of the block.
    pub fn as_mut<'a>(&self, heap: &'a mut Heap<AnyRefInner<I, V>>, type_id: &I) -> (guard:
        WatchGuardMut<'a, V>) where I: PartialEq
        requires
            vstd::laws_eq::obeys_concrete_eq::<I>(),
            old(heap).wf(),
            old(heap).alive(self@),
            old(heap).value(self@).type_id == *type_id,
            !mutex::decode(old(heap).value(self@).lock@.word).held(),
        ensures
            final(heap).wf(),
            *guard.data == old(heap).value(self@).data,
            old(heap).value(self@).lock@.same_but_word(guard.lock@),
            mutex::decode(guard.lock@.word) == (mutex::WordView {
                writer: true,
                ..mutex::decode(old(heap).value(self@).lock@.word)
            }),
            old(heap).with_block(
                final(heap),
                self@,
                Some(
                    BlockView {
                        val: Some(
                            AnyRefInner {
                                data: *final(guard.data),
                                lock: *final(guard.lock),
                                ..old(heap).value(self@)
                            },
                        ),
                        ..old(heap).block(self@)->0
                    },
                ),
            ),
    {
        match self.try_downcast_mut(heap, type_id) {
            Some(guard) => guard,
            None => vstd::pervasive::unreached(),
        }
    }

    /// The name of the type that the value was made with.
    pub fn type_label(&self, heap: &Heap<AnyRefInner<I, V>>) -> (name: &'static str)
        requires
            heap.wf(),
            heap.alive(self@),
        ensures
            name == heap.value(self@).type_label,
    {
        self.inner(heap).type_label
    }

    /// Replaces the value and its type, for every reference to the block. The
    /// name of the type stays the one that the block was made with. Nobody holds
    /// the lock of the block.
    pub fn fill(this: Self, heap: &mut Heap<AnyRefInner<I, V>>, type_id: I, data: V) -> (back: Self)
        requires
            old(heap).wf(),
            old(heap).alive(this@),
            !mutex::decode(old(heap).value(this@).lock@.word).held(),
        ensures
            final(heap).wf(),
            back@ == this@,
            old(heap).with_block(final(heap), this@, final(heap).block(this@)),
            final(heap).block(this@) is Some,
            final(heap).block(this@)->0.strong == old(heap).block(this@)->0.strong,
            final(heap).block(this@)->0.weak == old(heap).block(this@)->0.weak,
            final(heap).value(this@).passed(
                old(heap).value(this@).lock@,
                type_id,
                old(heap).value(this@).type_label,
                data,
            ),
    {
        let erased: &mut AnyRefInner<I, V> = this.inner_mut(heap);
        erased.lock.lock_exclusive();
        erased.data = data;
        erased.type_id = type_id;
        erased.lock.unlock_exclusive();
        this
    }

    /// Whether this is the only strong reference.
    pub fn is_unique(this: &Self, heap: &mut Heap<AnyRefInner<I, V>>) -> (unique: bool)
        requires
            old(heap).wf(),
            old(heap).alive(this@),
        ensures
            final(heap).wf(),
            unique == (old(heap).block(this@)->0.strong == 1),
            old(heap).with_block(final(heap), this@, old(heap).block(this@)),
    {
        heap.look_mut(this.ptr).is_unique()
    }

    /// A weak reference to the same block. There is none while the weak count is
    /// locked; the caller then tries again.
    pub fn downgrade(&self, heap: &mut Heap<AnyRefInner<I, V>>) -> (weak: Option<WeakAnyRef<I, V>>)
        requires
            old(heap).wf(),
            old(heap).alive(self@),
            old(heap).block(self@)->0.weak <= counted::MAX_REFCOUNT || old(heap).block(
                self@,
            )->0.weak == counted::LOCKED_WEAK,
        ensures
            final(heap).wf(),
            weak is Some == (old(heap).block(self@)->0.weak != counted::LOCKED_WEAK),
            weak matches Some(w) ==> w@ == self@ && old(heap).with_block(
                final(heap),
                self@,
                Some(
                    BlockView {
                        weak: (old(heap).block(self@)->0.weak + 1) as usize,
                        ..old(heap).block(self@)->0
                    },
                ),
            ),
            weak is None ==> old(heap).with_block(
                final(heap),
                self@,
                old(heap).block(self@),
            ),
    {
        if heap.look_mut(self.ptr).downgrade() {
            Some(WeakAnyRef::at(self.ptr))
        } else {
            None
        }
    }

    /// The number of weak references.
    #[inline]
    pub fn weak_count(this: &Self, heap: &Heap<AnyRefInner<I, V>>) -> (n: usize)
        requires
            heap.wf(),
            heap.alive(this@),
        ensures
            n == (if heap.block(this@)->0.weak == counted::LOCKED_WEAK {
                0
            } else {
                heap.block(this@)->0.weak - 1
            }),
    {
        heap.look(this.ptr).weak_handles()
    }

    /// The number of strong references.
    #[inline]
    pub fn strong_count(this: &Self, heap: &Heap<AnyRefInner<I, V>>) -> (n: usize)
        requires
            heap.alive(this@),
        ensures
            n == heap.block(this@)->0.strong,
    {
        heap.look(this.ptr).strong()
    }

    /// Whether both references are to the same block.
    #[inline]
    pub fn ptr_eq(this: &Self, other: &Self) -> (same: bool)
        ensures
            same == (this@ == other@),
    {
        this.ptr == other.ptr
    }

    /// The address of the block; the reference lives on in it.
    pub fn into_raw(self) -> (addr: usize)
        ensures
            addr == self@,
    {
        self.ptr
    }

    /// The reference that lives in the address of a block.
    pub fn from_raw(addr: usize) -> (this: Self)
        ensures
            this@ == addr,
    {
        Self::at(addr)
    }

    /// One more strong reference to the same block.
    #[inline]
    pub fn clone_ref(&self, heap: &mut Heap<AnyRefInner<I, V>>) -> (other: AnyRef<I, V>)
        requires
            old(heap).wf(),
            old(heap).alive(self@),
            old(heap).block(self@)->0.strong <= counted::MAX_REFCOUNT,
        ensures
            final(heap).wf(),
            other@ == self@,
            old(heap).with_block(
                final(heap),
                self@,
                Some(
                    BlockView {
                        strong: (old(heap).block(self@)->0.strong + 1) as usize,
                        ..old(heap).block(self@)->0
                    },
                ),
            ),
    {
        heap.look_mut(self.ptr).clone_strong();
        Self::at(self.ptr)
    }

    /// Gives the reference up. The last strong one hands the value over to be
    /// dropped.
    pub fn drop_ref(self, heap: &mut Heap<AnyRefInner<I, V>>) -> (value: Option<AnyRefInner<I, V>>)
        requires
            old(heap).wf(),
            old(heap).alive(self@),
        ensures
            final(heap).wf(),
            value == (if old(heap).block(self@)->0.strong == 1 {
                old(heap).block(self@)->0.val
            } else {
                None
            }),
            old(heap).with_block(
                final(heap),
                self@,
                if old(heap).block(self@)->0.sole() {
                    None
                } else {
                    Some(old(heap).block(self@)->0.strong_dropped())
                },
            ),
    {
        heap.drop_strong(self.ptr)
    }

    /// A reference to a new block that holds the default value of `T`, which
    /// `erase` makes a value of any type.
    pub fn default_with<T: Default, E: FnOnce(T) -> V>(
        heap: &mut Heap<AnyRefInner<I, V>>,
        type_id: I,
        type_label: &'static str,
        erase: E,
    ) -> (this: Self)
        requires
            old(heap).wf(),
            old(heap).next_addr() < counted::DANGLING,
            call_requires(T::default, ()),
            forall|value: T| #[trigger]
                call_ensures(T::default, (), value) ==> call_requires(erase, (value,)),
        ensures
            final(heap).wf(),
            this@ == old(heap).next_addr(),
            final(heap).next_addr() == this@ + 1,
            final(heap).block(this@) is Some,
            final(heap).block(this@)->0.strong == 1,
            final(heap).block(this@)->0.weak == 1,
            exists|value: T, data: V| #[trigger]
                call_ensures(erase, (value,), data) && call_ensures(T::default, (), value) && {
                &&& final(heap).value(this@).holds(type_id, type_label, data)
                &&& mutex::decode(final(heap).value(this@).lock@.word).idle()
                },
            forall|other: usize|
                other != this@ ==> #[trigger] final(heap).block(other) == old(heap).block(other),
    {
        Self::new(heap, type_id, type_label, erase(T::default()))
    }

    /// What a `Debug` print of the reference shows: what it is, the name of
    /// the type, and the strong and the weak count of the block.
    pub fn info(&self, heap: &Heap<AnyRefInner<I, V>>) -> (info: (
        &'static str,
        &'static str,
        usize,
        usize,
    ))
        requires
            heap.wf(),
            heap.alive(self@),
        ensures
            info.0@ == "AnyRef"@,
            info.1 == heap.value(self@).type_label,
            info.2 == heap.block(self@)->0.strong,
            info.3 == heap.block(self@)->0.weak,
    {
        let block = heap.look(self.ptr);
        ("AnyRef", self.type_label(heap), block.strong(), block.weak())
    }
}

/// Filling a block through one reference is seen through every other one; the
/// name of the type and the counts stay as they were, and the lock is free again.
pub proof fn law_fill_is_shared<I, V>(
    before: Heap<AnyRefInner<I, V>>,
    after: Heap<AnyRefInner<I, V>>,
    filler: AnyRef<I, V>,
    reader: AnyRef<I, V>,
    type_id: I,
    data: V,
)
    requires
        before.alive(filler@),
        before.alive(reader@),
        !mutex::decode(before.value(filler@).lock@.word).held(),
        before.with_block(&after, filler@, after.block(filler@)),
        after.block(filler@) is Some,
        after.block(filler@)->0.strong == before.block(filler@)->0.strong,
        after.block(filler@)->0.weak == before.block(filler@)->0.weak,
        after.value(filler@).passed(
            before.value(filler@).lock@,
            type_id,
            before.value(filler@).type_label,
            data,
        ),
    ensures
        after.alive(reader@),
        reader@ == filler@ ==> after.value(reader@).data == data && after.value(reader@).type_id
            == type_id && !mutex::decode(after.value(reader@).lock@.word).held(),
        reader@ != filler@ ==> after.block(reader@) == before.block(reader@),
        after.value(reader@).type_label == before.value(reader@).type_label,
        after.block(reader@)->0.strong == before.block(reader@)->0.strong,
        after.block(reader@)->0.weak == before.block(reader@)->0.weak,
{
}

} // verus!
