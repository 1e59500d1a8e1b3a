//! Weak references.
use crate::anyref::inner::Erased;
use crate::anyref::strong::AnyRef;
use crate::primitives::counted;
use crate::primitives::counted::{BlockView, Heap};
use std::marker::PhantomData;
use vstd::prelude::*;

verus! {

/// A weak reference to an erased value, or to nothing.
pub struct WeakAnyRef<I, V> {
    ptr: usize,
    marker: PhantomData<(I, V)>,
}

impl<I, V> View for WeakAnyRef<I, V> {
    type V = usize;

    closed spec fn view(&self) -> usize {
        self.ptr
    }
}

impl<I, V> WeakAnyRef<I, V> {
    /// A reference to the block at `ptr`.
    pub(crate) fn at(ptr: usize) -> (this: Self)
        ensures
            this@ == ptr,
    {
        WeakAnyRef { ptr, marker: PhantomData }
    }

    /// The reference is to nothing, or holds a weak reference to a block.
    pub open spec fn held(&self, heap: &Heap<Erased<I, V>>) -> bool {
        self@ == counted::DANGLING || (heap.block(self@) is Some && heap.block(self@)->0.weak > (
        if heap.block(self@)->0.strong > 0 {
            1int
        } else {
            0
        }))
    }

    /// A reference to nothing.
    #[inline]
    pub fn new() -> (this: WeakAnyRef<I, V>)
        ensures
            this@ == counted::DANGLING,
    {
        Self::at(counted::DANGLING)
    }

    /// A strong reference to the same block; none where the value is gone, or
    /// the reference is to nothing.
    pub fn upgrade(&self, heap: &mut Heap<Erased<I, V>>) -> (strong: Option<AnyRef<I, V>>)
        requires
            old(heap).wf(),
            self.held(old(heap)),
            self@ != counted::DANGLING ==> old(heap).block(self@)->0.strong
                <= counted::MAX_REFCOUNT,
        ensures
            final(heap).wf(),
            strong is Some == (self@ != counted::DANGLING && old(heap).alive(self@)),
            strong matches Some(s) ==> s@ == self@ && old(heap).with_block(
                final(heap),
                self@,
                Some(
                    BlockView {
                        strong: (old(heap).block(self@)->0.strong + 1) as usize,
                        ..old(heap).block(self@)->0
                    },
                ),
            ),
            strong is None ==> old(heap).with_block(final(heap), self@, old(heap).block(self@)),
    {
        if counted::is_dangling(self.ptr) {
            return None;
        }
        if heap.look_mut(self.ptr).upgrade() {
            Some(AnyRef::at(self.ptr))
        } else {
            None
        }
    }

    /// The number of strong references.
    pub fn strong_count(&self, heap: &Heap<Erased<I, V>>) -> (n: usize)
        requires
            self.held(heap),
        ensures
            n == (if self@ == counted::DANGLING {
                0
            } else {
                heap.block(self@)->0.strong
            }),
    {
        if counted::is_dangling(self.ptr) {
            return 0;
        }
        heap.look(self.ptr).strong()
    }

    /// The number of weak references. The one that the strong references hold
    /// together is not counted.
    pub fn weak_count(&self, heap: &Heap<Erased<I, V>>) -> (n: usize)
        requires
            self.held(heap),
        ensures
            n == (if self@ == counted::DANGLING {
                0
            } else if heap.block(self@)->0.strong > 0 {
                heap.block(self@)->0.weak - 1
            } else {
                heap.block(self@)->0.weak as int
            }),
    {
        if counted::is_dangling(self.ptr) {
            return 0;
        }
        let block = heap.look(self.ptr);
        if block.strong() > 0 {
            block.weak() - 1
        } else {
            block.weak()
        }
    }

    /// One more weak reference to the same block, or to nothing.
    pub fn clone_ref(&self, heap: &mut Heap<Erased<I, V>>) -> (other: WeakAnyRef<I, V>)
        requires
            old(heap).wf(),
            self.held(old(heap)),
            self@ != counted::DANGLING ==> old(heap).block(self@)->0.weak
                <= counted::MAX_REFCOUNT,
        ensures
            final(heap).wf(),
            other@ == self@,
            self@ == counted::DANGLING ==> *final(heap) == *old(heap),
            self@ != counted::DANGLING ==> old(heap).with_block(
                final(heap),
                self@,
                Some(
                    BlockView {
                        weak: (old(heap).block(self@)->0.weak + 1) as usize,
                        ..old(heap).block(self@)->0
                    },
                ),
            ),
    {
        if !counted::is_dangling(self.ptr) {
            heap.look_mut(self.ptr).clone_weak();
        }
        Self::at(self.ptr)
    }

    /// Gives the reference up; the last reference of any kind frees the block.
    pub fn drop_ref(self, heap: &mut Heap<Erased<I, V>>)
        requires
            old(heap).wf(),
            self.held(old(heap)),
        ensures
            final(heap).wf(),
            self@ == counted::DANGLING ==> *final(heap) == *old(heap),
            self@ != counted::DANGLING ==> old(heap).with_block(
                final(heap),
                self@,
                if old(heap).block(self@)->0.weak == 1 {
                    None
                } else {
                    Some(old(heap).block(self@)->0.weak_dropped())
                },
            ),
    {
        if counted::is_dangling(self.ptr) {
            return ;
        }
        heap.drop_weak(self.ptr);
    }
}

impl<I, V> Default for WeakAnyRef<I, V> {
    fn default() -> (this: WeakAnyRef<I, V>)
        ensures
            this@ == counted::DANGLING,
    {
        WeakAnyRef::new()
    }
}

} // verus!
