//! What a block holds: a value whose type is known only at run time, and a lock.
use crate::mutex::mutex;
use crate::mutex::mutex::Mutex;
use vstd::prelude::*;

verus! {

/// A value with the identity and the name of its type, and a lock. `I` tells
/// types apart, and `V` can hold a value of any of them.
pub struct AnyRefInner<I, V> {
    pub type_id: I,
    pub type_label: &'static str,
    pub data: V,
    pub lock: Mutex,
}

impl<I, V> AnyRefInner<I, V> {
    /// The value is `data`, of the type `type_id`.
    pub open spec fn holds(self, type_id: I, type_label: &'static str, data: V) -> bool {
        &&& self.type_id == type_id
        &&& self.type_label == type_label
        &&& self.data == data
    }

    /// The value is `data`, of the type `type_id`, and the lock, which nobody
    /// held, is `lock` taken exclusively and given back.
    pub open spec fn passed(
        self,
        lock: mutex::MutexView,
        type_id: I,
        type_label: &'static str,
        data: V,
    ) -> bool {
        &&& self.holds(type_id, type_label, data)
        &&& lock.passed_exclusive(self.lock@)
    }

    /// `data` with a free lock.
    pub fn new(type_id: I, type_label: &'static str, data: V) -> (inner: Self)
        ensures
            inner.holds(type_id, type_label, data),
            mutex::decode(inner.lock@.word).idle(),
    {
        AnyRefInner { type_id, type_label, data, lock: Mutex::new() }
    }
}

/// What is said to hold a value holds that value, of that type and under that
/// name.
pub proof fn law_a_block_holds_what_it_says<I, V>(
    inner: AnyRefInner<I, V>,
    type_id: I,
    type_label: &'static str,
    data: V,
)
    requires
        inner.holds(type_id, type_label, data),
    ensures
        inner.type_id == type_id,
        inner.type_label == type_label,
        inner.data == data,
{
}

/// What is said to have passed a value on holds it, and its lock, which nobody
/// held, has been taken exclusively and given back: nobody holds it.
pub proof fn law_passing_a_value_on_frees_the_lock<I, V>(
    inner: AnyRefInner<I, V>,
    lock: mutex::MutexView,
    type_id: I,
    type_label: &'static str,
    data: V,
)
    requires
        inner.passed(lock, type_id, type_label, data),
    ensures
        inner.type_id == type_id,
        inner.type_label == type_label,
        inner.data == data,
        lock.passed_exclusive(inner.lock@),
        !mutex::decode(inner.lock@.word).held(),
{
}

} // verus!
