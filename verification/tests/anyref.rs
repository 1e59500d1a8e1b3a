use castbox::any_ref::inner::AnyRefInner;
use castbox::any_ref::strong::AnyRef as LockedRef;
use castbox::any_ref::weak::WeakAnyRef as WeakLockedRef;
use castbox::anyref::inner::Erased;
use castbox::anyref::strong::AnyRef;
use castbox::anyref::weak::WeakAnyRef;
use castbox::primitives::counted::Heap;
use std::any::{Any, TypeId};
use std::cell::Cell;
use std::rc::Rc;

type Data = Box<dyn Any>;
type AnyHeap = Heap<Erased<TypeId, Data>>;
type Any1 = AnyRef<TypeId, Data>;
type LockedHeap = Heap<AnyRefInner<TypeId, Data>>;
type Any2 = LockedRef<TypeId, Data>;

fn label<T: Any>() -> &'static str {
    if TypeId::of::<T>() == TypeId::of::<i32>() {
        "i32"
    } else {
        "another type"
    }
}

fn new<T: Any>(heap: &mut AnyHeap, value: T) -> Any1 {
    AnyRef::new(heap, TypeId::of::<T>(), label::<T>(), Box::new(value))
}

fn get<'a, T: Any>(heap: &'a AnyHeap, x: &Any1) -> &'a T {
    x.as_ref(heap, &TypeId::of::<T>()).downcast_ref::<T>().unwrap()
}

fn get_mut<'a, T: Any>(heap: &'a mut AnyHeap, x: &Any1) -> &'a mut T {
    x.as_mut(heap, &TypeId::of::<T>()).downcast_mut::<T>().unwrap()
}

fn unwrap<T: Any>(heap: &mut AnyHeap, x: Any1) -> Result<T, Any1> {
    match AnyRef::try_unwrap(x, heap, &TypeId::of::<T>()) {
        Ok(data) => Ok(*data.downcast::<T>().unwrap()),
        Err(back) => Err(back),
    }
}

fn fill<T: Any>(heap: &mut AnyHeap, x: Any1, value: T) -> Any1 {
    AnyRef::fill(x, heap, TypeId::of::<T>(), Box::new(value))
}

fn new2<T: Any>(heap: &mut LockedHeap, value: T) -> Any2 {
    LockedRef::new(heap, TypeId::of::<T>(), label::<T>(), Box::new(value))
}

fn default1<T: Any + Default>(heap: &mut AnyHeap) -> Any1 {
    AnyRef::default_with(heap, TypeId::of::<T>(), label::<T>(), |value: T| {
        Box::new(value) as Data
    })
}

fn default2<T: Any + Default>(heap: &mut LockedHeap) -> Any2 {
    LockedRef::default_with(heap, TypeId::of::<T>(), label::<T>(), |value: T| {
        Box::new(value) as Data
    })
}

fn get2<T: Any + Clone>(heap: &mut LockedHeap, x: &Any2) -> T {
    let guard = x.as_ref(heap, &TypeId::of::<T>());
    let value = guard.deref().downcast_ref::<T>().unwrap().clone();
    guard.unlock();
    value
}

#[derive(Clone)]
struct Def {
    data: String,
}

impl Default for Def {
    fn default() -> Self {
        Def {
            data: String::from("hello"),
        }
    }
}

struct DropTracker {
    id: i32,
    drops: Rc<Cell<u32>>,
}

impl Drop for DropTracker {
    fn drop(&mut self) {
        self.drops.set(self.drops.get() + 1);
    }
}

#[test]
fn anyref_new_with_primitive_types() {
    let mut heap = Heap::new();
    let i32_ref = new(&mut heap, 42i32);
    let f64_ref = new(&mut heap, 3.14f64);
    let bool_ref = new(&mut heap, true);
    let char_ref = new(&mut heap, 'x');

    assert_eq!(*get::<i32>(&heap, &i32_ref), 42i32);
    assert!((*get::<f64>(&heap, &f64_ref) - 3.14f64).abs() < f64::EPSILON);
    assert!(*get::<bool>(&heap, &bool_ref));
    assert_eq!(*get::<char>(&heap, &char_ref), 'x');
}

#[test]
fn anyref_new_with_complex_types() {
    let mut heap = Heap::new();
    let vec_ref = new(&mut heap, vec![1, 2, 3, 4, 5]);
    let string_ref = new(&mut heap, String::from("hello world"));
    let option_ref = new(&mut heap, Some(42));

    assert_eq!(*get::<Vec<i32>>(&heap, &vec_ref), vec![1, 2, 3, 4, 5]);
    assert_eq!(*get::<String>(&heap, &string_ref), "hello world");
    assert_eq!(*get::<Option<i32>>(&heap, &option_ref), Some(42));
}

#[derive(Debug, PartialEq)]
struct ZST;

#[test]
fn anyref_new_with_zero_sized_type() {
    let mut heap = Heap::new();
    let zst_ref = new(&mut heap, ZST);
    assert_eq!(*get::<ZST>(&heap, &zst_ref), ZST);
}

#[test]
fn type_id_is_correct() {
    let mut heap = Heap::new();
    let x = new(&mut heap, 42u32);
    assert_eq!(x.inner(&heap).type_id, TypeId::of::<u32>());
    assert_ne!(x.inner(&heap).type_id, TypeId::of::<i32>());
}

#[test]
fn type_name_is_correct() {
    let mut heap = Heap::new();
    let x = new(&mut heap, 42i32);
    assert_eq!(x.type_label(&heap), "i32");
}

#[test]
fn try_downcast_ref_wrong_type_returns_none() {
    let mut heap = Heap::new();
    let x = new(&mut heap, 42i32);
    assert!(x.try_downcast_ref(&heap, &TypeId::of::<u32>()).is_none());
    assert!(x.try_downcast_ref(&heap, &TypeId::of::<String>()).is_none());
    assert!(x.try_downcast_mut(&mut heap, &TypeId::of::<String>()).is_none());
}

#[test]
fn strong_count_increments_on_clone() {
    let mut heap = Heap::new();
    let x = new(&mut heap, 42);
    assert_eq!(AnyRef::strong_count(&x, &heap), 1);
    let y = x.clone_ref(&mut heap);
    assert_eq!(AnyRef::strong_count(&x, &heap), 2);
    assert_eq!(AnyRef::strong_count(&y, &heap), 2);
    y.drop_ref(&mut heap);
    assert_eq!(AnyRef::strong_count(&x, &heap), 1);
}

#[test]
fn weak_count_increments_on_downgrade() {
    let mut heap = Heap::new();
    let x = new(&mut heap, 42);
    assert_eq!(AnyRef::weak_count(&x, &heap), 0);
    let w1 = x.downgrade(&mut heap).unwrap();
    assert_eq!(AnyRef::weak_count(&x, &heap), 1);
    let w2 = w1.clone_ref(&mut heap);
    assert_eq!(AnyRef::weak_count(&x, &heap), 2);
    w1.drop_ref(&mut heap);
    w2.drop_ref(&mut heap);
    assert_eq!(AnyRef::weak_count(&x, &heap), 0);
}

#[test]
fn weak_strong_count_methods() {
    let mut heap = Heap::new();
    let x = new(&mut heap, 42);
    let w = x.downgrade(&mut heap).unwrap();
    assert_eq!(w.strong_count(&heap), 1);
    assert_eq!(w.weak_count(&heap), 1);
    x.drop_ref(&mut heap);
    assert_eq!(w.strong_count(&heap), 0);
}

#[test]
fn is_unique_with_single_strong_ref() {
    let mut heap = Heap::new();
    let x = new(&mut heap, 42);
    assert!(AnyRef::is_unique(&x, &mut heap));
}

#[test]
fn is_unique_with_multiple_strong_refs() {
    let mut heap = Heap::new();
    let x = new(&mut heap, 42);
    let _y = x.clone_ref(&mut heap);
    assert!(!AnyRef::is_unique(&x, &mut heap));
}

#[test]
fn ptr_eq_same_allocation() {
    let mut heap = Heap::new();
    let x = new(&mut heap, 42);
    let y = x.clone_ref(&mut heap);
    assert!(AnyRef::ptr_eq(&x, &y));
}

#[test]
fn ptr_eq_different_allocations() {
    let mut heap = Heap::new();
    let x = new(&mut heap, 42);
    let y = new(&mut heap, 42);
    assert!(!AnyRef::ptr_eq(&x, &y));
}

#[test]
fn try_unwrap_success_with_single_ref() {
    let mut heap = Heap::new();
    let x = new(&mut heap, String::from("hello"));
    let result = unwrap::<String>(&mut heap, x);
    assert!(result.is_ok());
    assert_eq!(result.ok().unwrap(), "hello");
}

#[test]
fn try_unwrap_fails_with_multiple_refs() {
    let mut heap = Heap::new();
    let x = new(&mut heap, 42i32);
    let y = x.clone_ref(&mut heap);
    let result = unwrap::<i32>(&mut heap, x);
    assert!(result.is_err());
    let returned = result.err().unwrap();
    assert_eq!(*get::<i32>(&heap, &returned), 42);
    y.drop_ref(&mut heap);
}

#[test]
fn try_unwrap_fails_with_weak_refs() {
    let mut heap = Heap::new();
    let x = new(&mut heap, 42i32);
    let w = x.downgrade(&mut heap).unwrap();
    let result = unwrap::<i32>(&mut heap, x);
    assert!(result.is_err());
    w.drop_ref(&mut heap);
}

#[test]
fn try_unwrap_wrong_type_returns_err() {
    let mut heap = Heap::new();
    let x = new(&mut heap, 42i32);
    let result = unwrap::<String>(&mut heap, x);
    assert!(result.is_err());
    let returned = result.err().unwrap();
    assert_eq!(*get::<i32>(&heap, &returned), 42);
}

#[test]
fn anyref_try_unwrap_drops_correctly() {
    let drops = Rc::new(Cell::new(0));
    let mut heap = Heap::new();
    let x = new(&mut heap, DropTracker { id: 42, drops: drops.clone() });
    let val = unwrap::<DropTracker>(&mut heap, x).ok().unwrap();
    assert_eq!(val.id, 42);
    assert_eq!(drops.get(), 0);
    drop(val);
    assert_eq!(drops.get(), 1);
}

#[test]
fn anyref_map_transforms_value() {
    let mut heap = Heap::new();
    let x = new(&mut heap, 5i32);
    let y = x.map(
        &mut heap,
        &TypeId::of::<i32>(),
        TypeId::of::<u64>(),
        label::<u64>(),
        |v: &Data| Box::new((*v.downcast_ref::<i32>().unwrap() * 2) as u64) as Data,
    );
    assert_eq!(*get::<u64>(&heap, &y), 10u64);
}

#[test]
fn anyref_fill_replaces_value() {
    let mut heap = Heap::new();
    let x = new(&mut heap, 42i32);
    let x = fill(&mut heap, x, 100i32);
    assert_eq!(*get::<i32>(&heap, &x), 100);
}

#[test]
fn fill_changes_type() {
    let mut heap = Heap::new();
    let x = new(&mut heap, 42i32);
    let x = fill(&mut heap, x, String::from("hello"));
    assert_eq!(*get::<String>(&heap, &x), "hello");
    assert_eq!(x.type_label(&heap), "i32");
}

#[test]
fn default_with_creates_default_value() {
    let mut heap = Heap::new();
    let x = default1::<i32>(&mut heap);
    assert_eq!(*get::<i32>(&heap, &x), 0);
    let y = default1::<String>(&mut heap);
    assert_eq!(*get::<String>(&heap, &y), "");
}

#[test]
fn from_str_creates_owned_string() {
    let mut heap = Heap::new();
    let x = new(&mut heap, "hello".to_string());
    assert_eq!(*get::<String>(&heap, &x), "hello");
}

#[test]
fn from_box_takes_ownership() {
    let mut heap: AnyHeap = Heap::new();
    let boxed = Box::new(42i32);
    let x = AnyRef::new(&mut heap, TypeId::of::<i32>(), label::<i32>(), boxed as Data);
    assert_eq!(*get::<i32>(&heap, &x), 42);
}

#[test]
fn into_raw_and_from_raw_roundtrip() {
    let mut heap = Heap::new();
    let x = new(&mut heap, String::from("test"));
    let raw = AnyRef::into_raw(x);
    let y = AnyRef::from_raw(raw);
    assert_eq!(*get::<String>(&heap, &y), "test");
}

#[test]
fn into_raw_prevents_drop_until_reconstructed() {
    let drops = Rc::new(Cell::new(0));
    let mut heap = Heap::new();
    let x = new(&mut heap, DropTracker { id: 0, drops: drops.clone() });
    let raw = AnyRef::into_raw(x);
    assert_eq!(drops.get(), 0);
    let y: Any1 = AnyRef::from_raw(raw);
    assert_eq!(drops.get(), 0);
    y.drop_ref(&mut heap);
    assert_eq!(drops.get(), 1);
}

#[test]
fn weak_new_creates_dangling() {
    let mut heap: AnyHeap = Heap::new();
    let w: WeakAnyRef<TypeId, Data> = WeakAnyRef::new();
    assert!(w.upgrade(&mut heap).is_none());
    assert_eq!(w.strong_count(&heap), 0);
}

#[test]
fn weak_default_creates_dangling() {
    let mut heap: AnyHeap = Heap::new();
    let w: WeakAnyRef<TypeId, Data> = Default::default();
    assert!(w.upgrade(&mut heap).is_none());
}

#[test]
fn weak_upgrade_after_strong_drop_fails() {
    let mut heap = Heap::new();
    let weak;
    {
        let x = new(&mut heap, 42);
        weak = x.downgrade(&mut heap).unwrap();
        let up = weak.upgrade(&mut heap);
        assert!(up.is_some());
        up.unwrap().drop_ref(&mut heap);
        x.drop_ref(&mut heap);
    }
    assert!(weak.upgrade(&mut heap).is_none());
}

#[test]
fn weak_clone_of_dangling() {
    let mut heap: AnyHeap = Heap::new();
    let w1: WeakAnyRef<TypeId, Data> = WeakAnyRef::new();
    let w2 = w1.clone_ref(&mut heap);
    assert!(w1.upgrade(&mut heap).is_none());
    assert!(w2.upgrade(&mut heap).is_none());
}

#[test]
fn multiple_upgrades_work() {
    let mut heap = Heap::new();
    let x = new(&mut heap, 42);
    let w = x.downgrade(&mut heap).unwrap();
    let y1 = w.upgrade(&mut heap).unwrap();
    let y2 = w.upgrade(&mut heap).unwrap();
    assert_eq!(AnyRef::strong_count(&x, &heap), 3);
    assert_eq!(*get::<i32>(&heap, &y1), 42);
    assert_eq!(*get::<i32>(&heap, &y2), 42);
}

#[test]
fn drop_is_called_exactly_once() {
    let drops = Rc::new(Cell::new(0));
    let mut heap = Heap::new();
    let x = new(&mut heap, DropTracker { id: 0, drops: drops.clone() });
    let y = x.clone_ref(&mut heap);
    let z = x.clone_ref(&mut heap);
    let w = x.downgrade(&mut heap).unwrap();

    x.drop_ref(&mut heap);
    assert_eq!(drops.get(), 0);
    y.drop_ref(&mut heap);
    assert_eq!(drops.get(), 0);
    z.drop_ref(&mut heap);
    assert_eq!(drops.get(), 1);
    assert!(w.upgrade(&mut heap).is_none());
}

#[test]
fn anyref_mutation_visible_through_clones() {
    let mut heap = Heap::new();
    let x = new(&mut heap, vec![1, 2, 3]);
    let y = x.clone_ref(&mut heap);
    get_mut::<Vec<i32>>(&mut heap, &x).push(4);
    assert_eq!(*get::<Vec<i32>>(&heap, &y), vec![1, 2, 3, 4]);
}

#[test]
fn mutation_visible_through_weak() {
    let mut heap = Heap::new();
    let x = new(&mut heap, String::from("hello"));
    let w = x.downgrade(&mut heap).unwrap();
    get_mut::<String>(&mut heap, &x).push_str(" world");
    let upgraded = w.upgrade(&mut heap).unwrap();
    assert_eq!(*get::<String>(&heap, &upgraded), "hello world");
}

#[test]
fn many_clones_and_drops() {
    let mut heap = Heap::new();
    let x = new(&mut heap, String::from("test"));
    let mut refs = vec![];
    for _ in 0..100 {
        refs.push(x.clone_ref(&mut heap));
    }
    assert_eq!(AnyRef::strong_count(&x, &heap), 101);
    for r in refs {
        r.drop_ref(&mut heap);
    }
    assert_eq!(AnyRef::strong_count(&x, &heap), 1);
}

#[test]
fn anyref_many_weak_refs() {
    let mut heap = Heap::new();
    let x = new(&mut heap, 42);
    let mut weaks = vec![];
    for _ in 0..100 {
        weaks.push(x.downgrade(&mut heap).unwrap());
    }
    assert_eq!(AnyRef::weak_count(&x, &heap), 100);
    for w in &weaks {
        let up = w.upgrade(&mut heap);
        assert!(up.is_some());
        up.unwrap().drop_ref(&mut heap);
    }
    for w in weaks {
        w.drop_ref(&mut heap);
    }
    assert_eq!(AnyRef::weak_count(&x, &heap), 0);
}

#[test]
fn fill_after_try_unwrap_failure() {
    let mut heap = Heap::new();
    let x = new(&mut heap, 42i32);
    let y = x.clone_ref(&mut heap);
    let x = unwrap::<i32>(&mut heap, x).err().unwrap();
    let x = fill(&mut heap, x, 100i32);
    assert_eq!(*get::<i32>(&heap, &x), 100);
    assert_eq!(*get::<i32>(&heap, &y), 100);
}

#[test]
fn debug_format_contains_type_info() {
    let mut heap = Heap::new();
    let x = new(&mut heap, 42i32);
    let (name, label, strong, weak) = x.info(&heap);
    assert!(name.contains("AnyRef"));
    assert!(label.contains("i32"));
    assert_eq!((strong, weak), (1, 1));
}

#[test]
fn test_map() {
    let mut heap = Heap::new();
    let x = new2(&mut heap, 5i32);
    let y = x.map(
        &mut heap,
        &TypeId::of::<i32>(),
        TypeId::of::<u64>(),
        label::<u64>(),
        |x: &Data| Box::new((x.downcast_ref::<i32>().unwrap() * 2) as u64) as Data,
    );
    assert_eq!(get2::<u64>(&mut heap, &y), 10u64);
}

#[test]
fn new_and_type() {
    let mut heap = Heap::new();
    let x = new2(&mut heap, 42u32);
    assert_eq!(x.inner(&heap).type_id, TypeId::of::<u32>());
    let x = new2(&mut heap, String::new());
    assert_eq!(x.inner(&heap).type_id, TypeId::of::<String>());
    let x = new2(&mut heap, Box::new(String::new()));
    assert_eq!(x.inner(&heap).type_id, TypeId::of::<Box<String>>());
}

#[test]
fn test_strong_weak_counts() {
    let mut heap = Heap::new();
    let x = new2(&mut heap, "hello");
    let y = x.clone_ref(&mut heap);
    {
        let j = y.clone_ref(&mut heap);
        assert_eq!(LockedRef::weak_count(&x, &heap), 0);
        assert_eq!(LockedRef::strong_count(&j, &heap), 3);
        j.drop_ref(&mut heap);
    }
    let _x_d = x.downgrade(&mut heap).unwrap();
    let weak_clone = _x_d.clone_ref(&mut heap);
    assert_eq!(LockedRef::strong_count(&x, &heap), 2);
    assert_eq!(LockedRef::weak_count(&x, &heap), 2);

    x.drop_ref(&mut heap);
    let x = weak_clone.upgrade(&mut heap).unwrap();
    weak_clone.drop_ref(&mut heap);
    assert_eq!(LockedRef::strong_count(&x, &heap), 2);
    assert_eq!(LockedRef::weak_count(&x, &heap), 1);
}

#[test]
fn test_downgrade_and_upgrade() {
    let mut heap = Heap::new();
    let x = new2(&mut heap, "test");
    let weak = x.downgrade(&mut heap).unwrap();

    assert!(weak.upgrade(&mut heap).is_some());
    let up = weak.upgrade(&mut heap).unwrap();
    assert_eq!(get2::<&str>(&mut heap, &up), "test");
}

#[test]
fn test_downcast_success() {
    let mut heap = Heap::new();
    let x = new2(&mut heap, 1234i64);
    let val = get2::<i64>(&mut heap, &x);
    assert_eq!(val, 1234);
}

#[test]
fn test_downcast_fail() {
    let mut heap = Heap::new();
    let x = new2(&mut heap, 1234i64);
    let r = x.try_downcast_ref(&mut heap, &TypeId::of::<u32>());
    assert!(r.is_none())
}

#[test]
fn test_try_downcast_mut_success() {
    let mut heap = Heap::new();
    let x = new2(&mut heap, 42);
    let clone = x.downgrade(&mut heap).unwrap();
    {
        let y = x.try_downcast_mut(&mut heap, &TypeId::of::<i32>());
        assert!(y.is_some());
        let mut guard = y.unwrap();
        let v = guard.deref_mut().downcast_mut::<i32>().unwrap();
        *v += 1;
        assert_eq!(*v, 43);
        guard.unlock();
    }
    let seen = clone.try_downcast_ref(&heap, &TypeId::of::<i32>()).unwrap();
    assert_eq!(*seen.downcast_ref::<i32>().unwrap(), 43);
    assert!(clone.try_downcast_mut(&mut heap, &TypeId::of::<i32>()).is_none());
}

#[test]
fn test_weak_drops_when_no_strong() {
    let mut heap = Heap::new();
    let weak;
    {
        let x = new2(&mut heap, 42);
        weak = x.downgrade(&mut heap).unwrap();
        let up = weak.upgrade(&mut heap);
        assert!(up.is_some());
        up.unwrap().drop_ref(&mut heap);
        x.drop_ref(&mut heap);
    }
    let c = weak.clone_ref(&mut heap);
    assert_eq!(c.strong_count(&heap), 0);
    c.drop_ref(&mut heap);

    let _x = weak.clone_ref(&mut heap);
    let c = weak.clone_ref(&mut heap);
    assert_eq!(c.weak_count(&heap), 3);
    c.drop_ref(&mut heap);

    assert!(weak.upgrade(&mut heap).is_none());
    assert!(weak.try_downcast_ref(&heap, &TypeId::of::<i32>()).is_none());
}

#[test]
fn test_default_fill() {
    let mut heap = Heap::new();
    let x = default2::<()>(&mut heap);
    let x = LockedRef::fill(x, &mut heap, TypeId::of::<i32>(), Box::new(10i32));
    assert_eq!(get2::<i32>(&mut heap, &x).clone(), 10i32);

    let x = default2::<Def>(&mut heap);
    assert_eq!(get2::<Def>(&mut heap, &x).data, String::from("hello"));
}

#[test]
fn test_from_raw_in_reconstruction() {
    let mut heap = Heap::new();
    let x = new2(&mut heap, String::from("hello"));
    let raw = LockedRef::into_raw(x);

    let y = LockedRef::from_raw(raw);
    let val = get2::<String>(&mut heap, &y);
    assert_eq!(val, "hello");
}

#[test]
fn test_drop() {
    let drops = Rc::new(Cell::new(0));
    let mut heap = Heap::new();
    let foo = new2(&mut heap, DropTracker { id: 0, drops: drops.clone() });
    {
        let _x = LockedRef::clone_ref(&foo, &mut heap);
        let _weak_foo = LockedRef::downgrade(&foo, &mut heap).unwrap();
        _x.drop_ref(&mut heap);
        _weak_foo.drop_ref(&mut heap);
    }
    let weak_foo = LockedRef::downgrade(&foo, &mut heap).unwrap();
    let other_weak_foo = WeakLockedRef::clone_ref(&weak_foo, &mut heap);

    weak_foo.drop_ref(&mut heap);
    foo.drop_ref(&mut heap);

    assert!(other_weak_foo.upgrade(&mut heap).is_none());
    assert_eq!(drops.get(), 1);
}

#[test]
fn test_try_unwrap() {
    let mut heap = Heap::new();
    let x = new2(&mut heap, 3i32);
    match LockedRef::try_unwrap(x, &mut heap) {
        Ok(t) => assert_eq!(*t.downcast::<i32>().unwrap(), 3i32),
        Err(_) => panic!("sole reference"),
    }

    let x = new2(&mut heap, 4);
    let _y = LockedRef::clone_ref(&x, &mut heap);
    let back = LockedRef::try_unwrap(x, &mut heap).err().unwrap();
    assert_eq!(get2::<i32>(&mut heap, &back), 4);
}

#[test]
fn locked_reference_unwraps_beside_weak_ones() {
    let mut heap = Heap::new();
    let x = new2(&mut heap, 7i32);
    let w = x.downgrade(&mut heap).unwrap();
    assert!(!x.is_locked(&heap));
    x.lock_mut(&mut heap).lock_exclusive();
    assert!(x.is_locked(&heap));
    x.lock_mut(&mut heap).unlock_exclusive();
    let data = LockedRef::try_unwrap(x, &mut heap).ok().unwrap();
    assert_eq!(*data.downcast::<i32>().unwrap(), 7);
    assert!(w.upgrade(&mut heap).is_none());
    assert_eq!(w.weak_count(&heap), 1);
}

#[test]
fn weak_references_are_counted_when_no_strong_one_is_left() {
    let mut heap = Heap::new();
    let x = new(&mut heap, 42);
    let weak = x.downgrade(&mut heap).unwrap();
    let other = weak.clone_ref(&mut heap);
    assert_eq!(other.weak_count(&heap), 2);
    other.drop_ref(&mut heap);
    x.drop_ref(&mut heap);
    let _x = weak.clone_ref(&mut heap);
    assert_eq!(weak.clone_ref(&mut heap).weak_count(&heap), 3);
    assert_eq!(WeakAnyRef::<TypeId, Data>::new().weak_count(&heap), 0);
}

#[test]
fn an_only_strong_reference_is_unique_beside_weak_ones() {
    let mut heap = Heap::new();
    let x = new(&mut heap, 1);
    let _w = x.downgrade(&mut heap).unwrap();
    assert!(AnyRef::is_unique(&x, &mut heap));
    let mut heap = Heap::new();
    let x = new2(&mut heap, 1);
    let _w = x.downgrade(&mut heap).unwrap();
    assert!(LockedRef::is_unique(&x, &mut heap));
}

#[test]
fn default_of_a_struct_is_held() {
    let mut heap = Heap::new();
    let x = default1::<Def>(&mut heap);
    assert_eq!(get::<Def>(&heap, &x).data, "hello");
}

#[test]
fn guards_of_a_locked_reference_hold_its_lock() {
    let mut heap = Heap::new();
    let x = new2(&mut heap, 1i32);
    let mut guard = x.as_mut(&mut heap, &TypeId::of::<i32>());
    assert!(guard.is_locked());
    *guard.deref_mut() = Box::new(2i32);
    guard.unlock();
    assert!(!x.is_locked(&heap));
    let guard = x.try_downcast_ref(&mut heap, &TypeId::of::<i32>()).unwrap();
    assert_eq!(guard.lock.get_shared_locked(), 1);
    guard.unlock();
    x.lock_mut(&mut heap).lock_shared();
    assert_eq!(get2::<i32>(&mut heap, &x), 2);
    assert_eq!(x.lock_mut(&mut heap).get_shared_locked(), 1);
    x.lock_mut(&mut heap).unlock_shared();
    let x = LockedRef::fill(x, &mut heap, TypeId::of::<u8>(), Box::new(3u8));
    assert_eq!(get2::<u8>(&mut heap, &x), 3);
    assert!(!x.is_locked(&heap));
}
