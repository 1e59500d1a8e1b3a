use castbox::arw::strong::Arw;
use castbox::arw::weak::WeakArw;
use castbox::primitives::counted::{is_dangling, Heap};
use std::cell::Cell;
use std::rc::Rc;

struct DropTracker {
    id: i32,
    drops: Rc<Cell<u32>>,
}

impl Drop for DropTracker {
    fn drop(&mut self) {
        self.drops.set(self.drops.get() + 1);
    }
}

/// Checks in `drop` that its memory is what it was made with.
struct CanaryTracker {
    canary: u64,
    expected: u64,
    id: usize,
    drops: Rc<Cell<u32>>,
}

impl Drop for CanaryTracker {
    fn drop(&mut self) {
        assert_eq!(self.canary, self.expected, "Double drop detected for id {}", self.id);
        self.drops.set(self.drops.get() + 1);
    }
}

#[test]
fn arw_new_with_primitive_types() {
    let mut ints = Heap::new();
    let mut floats = Heap::new();
    let mut bools = Heap::new();
    let i32_ref = Arw::new(&mut ints, 42i32);
    let f64_ref = Arw::new(&mut floats, 3.14f64);
    let bool_ref = Arw::new(&mut bools, true);

    assert_eq!(*i32_ref.as_ref(&ints), 42i32);
    assert!((*f64_ref.as_ref(&floats) - 3.14f64).abs() < f64::EPSILON);
    assert!(*bool_ref.as_ref(&bools));
}

#[test]
fn arw_new_with_complex_types() {
    let mut vecs = Heap::new();
    let mut strings = Heap::new();
    let vec_ref = Arw::new(&mut vecs, vec![1, 2, 3, 4, 5]);
    let string_ref = Arw::new(&mut strings, String::from("hello world"));

    assert_eq!(*vec_ref.as_ref(&vecs), vec![1, 2, 3, 4, 5]);
    assert_eq!(*string_ref.as_ref(&strings), "hello world");
}

#[derive(Debug, PartialEq)]
struct ZST;

#[test]
fn arw_new_with_zero_sized_type() {
    let mut heap = Heap::new();
    let zst_ref = Arw::new(&mut heap, ZST);
    assert_eq!(*zst_ref.as_ref(&heap), ZST);
    assert_eq!(Arw::strong_count(&zst_ref, &heap), 1);
}

#[test]
fn strong_count_clone_drop() {
    let mut heap = Heap::new();
    let x = Arw::new(&mut heap, 42);
    assert_eq!(Arw::strong_count(&x, &heap), 1);

    let y = x.clone_ref(&mut heap);
    assert_eq!(Arw::strong_count(&x, &heap), 2);

    y.drop_ref(&mut heap);
    assert_eq!(Arw::strong_count(&x, &heap), 1);
}

#[test]
fn weak_count_operations() {
    let mut heap = Heap::new();
    let x = Arw::new(&mut heap, 42);
    assert_eq!(Arw::weak_count(&x, &heap), 0);

    let w1 = x.downgrade(&mut heap).unwrap();
    assert_eq!(Arw::weak_count(&x, &heap), 1);

    let w2 = w1.clone_ref(&mut heap);
    assert_eq!(Arw::weak_count(&x, &heap), 2);

    w1.drop_ref(&mut heap);
    w2.drop_ref(&mut heap);
    assert_eq!(Arw::weak_count(&x, &heap), 0);
}

#[test]
fn is_unique_tests() {
    let mut heap = Heap::new();
    let x = Arw::new(&mut heap, 42);
    assert!(Arw::is_unique(&x, &mut heap));

    let _y = x.clone_ref(&mut heap);
    assert!(!Arw::is_unique(&x, &mut heap));
}

#[test]
fn ptr_eq_tests() {
    let mut heap = Heap::new();
    let x = Arw::new(&mut heap, 42);
    let y = x.clone_ref(&mut heap);
    let z = Arw::new(&mut heap, 42);

    assert!(Arw::ptr_eq(&x, &y));
    assert!(!Arw::ptr_eq(&x, &z));
}

#[test]
fn try_unwrap_success() {
    let mut heap = Heap::new();
    let x = Arw::new(&mut heap, String::from("hello"));
    let result = Arw::try_unwrap(x, &mut heap);
    assert!(result.is_ok());
    assert_eq!(result.ok().unwrap(), "hello");
}

#[test]
fn try_unwrap_fails_with_clones() {
    let mut heap = Heap::new();
    let x = Arw::new(&mut heap, 42i32);
    let y = x.clone_ref(&mut heap);

    let result = Arw::try_unwrap(x, &mut heap);
    assert!(result.is_err());
    y.drop_ref(&mut heap);
}

#[test]
fn try_unwrap_fails_with_a_weak_reference() {
    let mut heap = Heap::new();
    let x = Arw::new(&mut heap, 42i32);
    let w = x.downgrade(&mut heap).unwrap();
    let back = Arw::try_unwrap(x, &mut heap).err().unwrap();
    assert_eq!(*back.as_ref(&heap), 42);
    w.drop_ref(&mut heap);
    assert_eq!(Arw::try_unwrap(back, &mut heap).ok(), Some(42));
}

#[test]
fn arw_try_unwrap_drops_correctly() {
    let drops = Rc::new(Cell::new(0));
    {
        let mut heap = Heap::new();
        let x = Arw::new(&mut heap, DropTracker { id: 42, drops: drops.clone() });
        let val = Arw::try_unwrap(x, &mut heap).ok().unwrap();
        assert_eq!(drops.get(), 0, "Value dropped prematurely during try_unwrap");
        assert_eq!(val.id, 42);
    }
    assert_eq!(drops.get(), 1, "Value should be dropped exactly once");
}

#[test]
fn try_unwrap_no_double_drop() {
    let drops = Rc::new(Cell::new(0));
    let mut heap = Heap::new();
    let detector = CanaryTracker {
        canary: 0xCAFEBABE,
        expected: 0xCAFEBABE,
        id: 1,
        drops: drops.clone(),
    };
    let x = Arw::new(&mut heap, detector);
    let val = Arw::try_unwrap(x, &mut heap).ok().unwrap();
    assert_eq!(val.id, 1);
    drop(val);
    drop(heap);
    assert_eq!(drops.get(), 1);
}

#[test]
fn arw_map_transforms_value() {
    let mut heap = Heap::new();
    let mut target = Heap::new();
    let x = Arw::new(&mut heap, 5i32);
    let y = x.map(&mut heap, &mut target, |v: &i32| (*v * 2) as u64);
    assert_eq!(*y.as_ref(&target), 10u64);
}

#[test]
fn arw_fill_replaces_value() {
    let mut heap = Heap::new();
    let x = Arw::new(&mut heap, 42i32);
    let y = x.clone_ref(&mut heap);
    let x = Arw::fill(x, &mut heap, 100i32);

    assert_eq!(*x.as_ref(&heap), 100);
    assert_eq!(*y.as_ref(&heap), 100);
}

#[test]
fn default_creates_default_value() {
    let mut heap = Heap::new();
    let x: Arw<i32> = Arw::default_in(&mut heap);
    assert_eq!(*x.as_ref(&heap), 0);
}

#[test]
fn into_raw_from_raw_roundtrip() {
    let mut heap = Heap::new();
    let x = Arw::new(&mut heap, String::from("test"));
    let raw = Arw::into_raw(x);
    let y = Arw::from_raw(raw);
    assert_eq!(*y.as_ref(&heap), "test");
}

#[test]
fn weak_new_is_dangling() {
    let mut heap = Heap::new();
    let w: WeakArw<i32> = WeakArw::new();
    assert!(w.upgrade(&mut heap).is_none());
    assert_eq!(w.strong_count(&heap), 0);
    assert_eq!(w.weak_count(&heap), 0);
    let v: WeakArw<i32> = WeakArw::default();
    let c = v.clone_ref(&mut heap);
    c.drop_ref(&mut heap);
    assert!(is_dangling(usize::MAX));
    assert!(!is_dangling(0));
}

#[test]
fn weak_upgrade_after_drop_fails() {
    let mut heap = Heap::new();
    let weak: WeakArw<i32>;
    {
        let x = Arw::new(&mut heap, 42);
        weak = x.downgrade(&mut heap).unwrap();
        let up = weak.upgrade(&mut heap);
        assert!(up.is_some());
        up.unwrap().drop_ref(&mut heap);
        x.drop_ref(&mut heap);
    }
    assert!(weak.upgrade(&mut heap).is_none());
}

#[test]
fn weak_survives_strong_drops() {
    let mut heap = Heap::new();
    let weak: WeakArw<String>;
    {
        let x = Arw::new(&mut heap, String::from("test"));
        weak = x.downgrade(&mut heap).unwrap();
        x.drop_ref(&mut heap);
    }

    assert!(weak.upgrade(&mut heap).is_none());
    assert_eq!(weak.strong_count(&heap), 0);
    assert_eq!(weak.weak_count(&heap), 1);
}

#[test]
fn drop_called_once() {
    let drops = Rc::new(Cell::new(0));
    let mut heap = Heap::new();
    let x = Arw::new(&mut heap, DropTracker { id: 0, drops: drops.clone() });
    let y = x.clone_ref(&mut heap);
    let _w = x.downgrade(&mut heap);

    x.drop_ref(&mut heap);
    assert_eq!(drops.get(), 0);

    y.drop_ref(&mut heap);
    assert_eq!(drops.get(), 1);
}

#[test]
fn arw_mutation_visible_through_clones() {
    let mut heap = Heap::new();
    let x = Arw::new(&mut heap, vec![1, 2, 3]);
    let y = x.clone_ref(&mut heap);

    x.as_mut(&mut heap).push(4);
    assert_eq!(*y.as_ref(&heap), vec![1, 2, 3, 4]);
}

#[test]
fn ub_detection_double_free() {
    let drops = Rc::new(Cell::new(0));
    let mut heap = Heap::new();
    let detector = CanaryTracker {
        canary: 0xDEADBEEF,
        expected: 0xDEADBEEF,
        id: 0,
        drops: drops.clone(),
    };
    let x = Arw::new(&mut heap, detector);
    let y = x.clone_ref(&mut heap);

    x.drop_ref(&mut heap);
    y.drop_ref(&mut heap);
    drop(heap);

    assert_eq!(drops.get(), 1);
}

#[test]
fn many_clones() {
    let mut heap = Heap::new();
    let x = Arw::new(&mut heap, 42);
    let clones: Vec<_> = (0..1000).map(|_| x.clone_ref(&mut heap)).collect();

    assert_eq!(Arw::strong_count(&x, &heap), 1001);
    for c in clones {
        c.drop_ref(&mut heap);
    }
    assert_eq!(Arw::strong_count(&x, &heap), 1);
}

#[test]
fn arw_many_weak_refs() {
    let mut heap = Heap::new();
    let x = Arw::new(&mut heap, 42);
    let weaks: Vec<_> = (0..1000).map(|_| x.downgrade(&mut heap).unwrap()).collect();

    assert_eq!(Arw::weak_count(&x, &heap), 1000);

    for w in &weaks {
        let up = w.upgrade(&mut heap);
        assert!(up.is_some());
        up.unwrap().drop_ref(&mut heap);
    }

    for w in weaks {
        w.drop_ref(&mut heap);
    }
    assert_eq!(Arw::weak_count(&x, &heap), 0);
}

struct ListNode {
    value: i32,
    next: Option<Arw<ListNode>>,
}

#[test]
fn recursive_structure() {
    let mut heap = Heap::new();
    let node3 = Arw::new(&mut heap, ListNode { value: 3, next: None });
    let node2 = Arw::new(&mut heap, ListNode { value: 2, next: Some(node3) });
    let node1 = Arw::new(&mut heap, ListNode { value: 1, next: Some(node2) });

    assert_eq!(node1.as_ref(&heap).value, 1);
    assert_eq!(node1.as_ref(&heap).next.as_ref().unwrap().as_ref(&heap).value, 2);
}

#[test]
fn miri_aliasing() {
    let mut heap = Heap::new();
    let x = Arw::new(&mut heap, 42i32);
    let y = x.clone_ref(&mut heap);

    let v1 = *x.as_ref(&heap);
    let v2 = *y.as_ref(&heap);
    assert_eq!(v1, v2);

    *x.as_mut(&mut heap) = 100;
    assert_eq!(*y.as_ref(&heap), 100);
}

#[test]
fn miri_stacked_borrows() {
    let mut heap = Heap::new();
    let x = Arw::new(&mut heap, vec![1, 2, 3]);

    {
        let r = x.as_ref(&heap);
        assert_eq!(r.len(), 3);
    }

    {
        let w = x.as_mut(&mut heap);
        w.push(4);
    }

    {
        let r = x.as_ref(&heap);
        assert_eq!(r.len(), 4);
    }
}

#[test]
fn downgrade_upgrade_cycle() {
    let mut heap = Heap::new();
    let x = Arw::new(&mut heap, String::from("test"));

    for _ in 0..100 {
        let weak = x.downgrade(&mut heap).unwrap();
        let upgraded = weak.upgrade(&mut heap).unwrap();
        assert_eq!(*upgraded.as_ref(&heap), "test");
        upgraded.drop_ref(&mut heap);
        weak.drop_ref(&mut heap);
    }

    assert_eq!(Arw::strong_count(&x, &heap), 1);
    assert_eq!(Arw::weak_count(&x, &heap), 0);
    assert_eq!(x.info(&heap), ("Arw", 1, 1));
}

#[test]
fn upgrade_keeps_alive() {
    let mut heap = Heap::new();
    let x = Arw::new(&mut heap, 42);
    let weak = x.downgrade(&mut heap).unwrap();
    let upgraded = weak.upgrade(&mut heap).unwrap();

    x.drop_ref(&mut heap);

    assert_eq!(*upgraded.as_ref(&heap), 42);
    assert_eq!(Arw::strong_count(&upgraded, &heap), 1);
}

#[test]
fn a_write_is_seen_through_every_reference() {
    let mut heap = Heap::new();
    let a = Arw::new(&mut heap, 1);
    let b = a.clone_ref(&mut heap);
    let other = Arw::new(&mut heap, 7);
    *a.as_mut(&mut heap) = 2;
    assert_eq!(*b.as_ref(&heap), 2);
    let b = Arw::fill(b, &mut heap, 3);
    assert_eq!((*a.as_ref(&heap), *b.as_ref(&heap)), (3, 3));
    assert_eq!(*other.as_ref(&heap), 7);
    assert_eq!(Arw::strong_count(&a, &heap), 2);
}

#[test]
fn weak_references_are_counted_without_the_implicit_one() {
    let mut heap = Heap::new();
    let x = Arw::new(&mut heap, 1);
    let w = x.downgrade(&mut heap).unwrap();
    assert_eq!(w.weak_count(&heap), 1);
    let v = w.clone_ref(&mut heap);
    assert_eq!(v.weak_count(&heap), 2);
    x.drop_ref(&mut heap);
    assert_eq!(v.weak_count(&heap), 2);
    v.drop_ref(&mut heap);
    assert_eq!(w.weak_count(&heap), 1);
}

#[test]
fn the_only_strong_reference_is_unique_beside_weak_ones() {
    let mut heap = Heap::new();
    let x = Arw::new(&mut heap, 1);
    let _w = x.downgrade(&mut heap).unwrap();
    assert!(Arw::is_unique(&x, &mut heap));
    assert!(x.downgrade(&mut heap).is_some());
    let _y = x.clone_ref(&mut heap);
    assert!(!Arw::is_unique(&x, &mut heap));
}
