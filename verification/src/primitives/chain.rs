//! A singly linked chain with a head and a tail, as the queues use it.
//!
//! The nodes live in an arena and name each other by their place in it; the
//! place of a node that has been taken out is used again.
use vstd::prelude::*;

verus! {

/// One node.
struct Node<T> {
    value: T,
    next: Option<usize>,
}

/// A chain of values. Its view is the values from the head to the tail.
pub struct Chain<T> {
    nodes: Vec<Option<Node<T>>>,
    free: Vec<usize>,
    head: Option<usize>,
    tail: Option<usize>,
    order: Ghost<Seq<usize>>,
}

impl<T> View for Chain<T> {
    type V = Seq<T>;

    closed spec fn view(&self) -> Seq<T> {
        Seq::new(self.order@.len(), |i: int| self.nodes@[self.order@[i] as int]->0.value)
    }
}

impl<T> Chain<T> {
    /// Place `p` has a node.
    spec fn live(&self, p: usize) -> bool {
        p < self.nodes@.len() && self.nodes@[p as int] is Some
    }

    /// The node at the place `i` steps from the head links to the next one.
    spec fn linked(&self, i: int) -> bool {
        self.nodes@[self.order@[i] as int]->0.next == (if i + 1 < self.order@.len() {
            Some(self.order@[i + 1])
        } else {
            None
        })
    }

    /// Following the links from the head meets every node once and ends at the
    /// tail; the free places have no node.
    pub closed spec fn wf(&self) -> bool {
        &&& self.order@.no_duplicates()
        &&& forall|i: int| 0 <= i < self.order@.len() ==> self.live(#[trigger] self.order@[i])
        &&& forall|i: int| 0 <= i < self.order@.len() ==> #[trigger] self.linked(i)
        &&& self.head == (if self.order@.len() > 0 {
            Some(self.order@[0])
        } else {
            None
        })
        &&& self.tail == (if self.order@.len() > 0 {
            Some(self.order@.last())
        } else {
            None
        })
        &&& forall|i: int|
            0 <= i < self.free@.len() ==> (#[trigger] self.free@[i]) < self.nodes@.len()
                && self.nodes@[self.free@[i] as int] is None
        &&& self.free@.no_duplicates()
    }

    /// An empty chain.
    pub fn new() -> (chain: Self)
        ensures
            chain.wf(),
            chain@ == Seq::<T>::empty(),
    {
        let chain: Chain<T> = Chain {
            nodes: Vec::new(),
            free: Vec::new(),
            head: None,
            tail: None,
            order: Ghost(Seq::empty()),
        };
        assert(chain@ =~= Seq::<T>::empty());
        chain
    }

    /// Whether there is no node.
    #[inline]
    pub fn is_empty(&self) -> (empty: bool)
        requires
            self.wf(),
        ensures
            empty == (self@.len() == 0),
    {
        self.head.is_none()
    }

    /// A place without a node, with a new node in it.
    fn place(&mut self, value: T) -> (p: usize)
        requires
            old(self).wf(),
        ensures
            final(self).live(p),
            final(self).nodes@[p as int]->0 == (Node { value, next: None }),
            !old(self).live(p),
            final(self).nodes@.len() >= old(self).nodes@.len(),
            forall|q: int|
                0 <= q < old(self).nodes@.len() && q != p ==> final(self).nodes@[q] == old(self).nodes@[q],
            final(self).order == old(self).order,
            final(self).head == old(self).head,
            final(self).tail == old(self).tail,
            final(self).free@.no_duplicates(),
            forall|i: int|
                0 <= i < final(self).free@.len() ==> (#[trigger] final(self).free@[i]) < final(self).nodes@.len() && final(self).nodes@[final(self).free@[i] as int] is None,
    {
        match self.free.pop() {
            Some(p) => {
                self.nodes.set(p, Some(Node { value, next: None }));
                p
            },
            None => {
                let p: usize = self.nodes.len();
                self.nodes.push(Some(Node { value, next: None }));
                p
            },
        }
    }

    /// Adds a node behind the tail.
    pub fn attach(&mut self, value: T)
        requires
            old(self).wf(),
        ensures
            final(self).wf(),
            final(self)@ == old(self)@.push(value),
    {
        let ghost before = *self;
        let p: usize = self.place(value);
        assert(!before.order@.contains(p)) by {
            if before.order@.contains(p) {
                let i = choose|i: int| 0 <= i < before.order@.len() && before.order@[i] == p;
                assert(before.live(before.order@[i]));
            }
        }
        match self.tail {
            Some(t) => {
                assert(before.live(before.order@[before.order@.len() - 1]));
                if let Some(node) = &mut self.nodes[t] {
                    node.next = Some(p);
                }
            },
            None => {},
        }
        self.tail = Some(p);
        if self.head.is_none() {
            self.head = Some(p);
        }
        proof {
            self.order = Ghost(before.order@.push(p));
            let n = before.order@.len() as int;
            assert forall|i: int| 0 <= i < self.order@.len() implies self.live(
                #[trigger] self.order@[i],
            ) && self.linked(i) && self.nodes@[self.order@[i] as int]->0.value == before@.push(
                value,
            )[i] by {
                if i < n {
                    assert(before.live(before.order@[i]));
                    assert(before.linked(i));
                    if i < n - 1 {
                        assert(before.order@[i] != before.order@[n - 1]);
                    }
                }
            }
            assert(self@ =~= before@.push(value));
        }
    }

    /// Takes the node at the head out.
    pub fn detach(&mut self) -> (value: Option<T>)
        requires
            old(self).wf(),
        ensures
            final(self).wf(),
            value == (if old(self)@.len() > 0 {
                Some(old(self)@[0])
            } else {
                None
            }),
            final(self)@ == (if old(self)@.len() > 0 {
                old(self)@.skip(1)
            } else {
                old(self)@
            }),
    {
        let ghost before = *self;
        match self.head {
            None => None,
            Some(h) => {
                assert(before.live(before.order@[0]) && before.linked(0));
                let mut taken: Option<Node<T>> = None;
                std::mem::swap(&mut self.nodes[h], &mut taken);
                let node: Node<T> = taken.unwrap();
                self.head = node.next;
                if self.tail == Some(h) {
                    self.tail = None;
                }
                self.free.push(h);
                proof {
                    let n = before.order@.len() as int;
                    self.order = Ghost(before.order@.skip(1));
                    assert(n > 1 ==> before.order@[0] != before.order@[n - 1]);
                    assert forall|i: int| 0 <= i < self.order@.len() implies self.live(
                        #[trigger] self.order@[i],
                    ) && self.linked(i) && self.nodes@[self.order@[i] as int]
                        == before.nodes@[before.order@[i + 1] as int] by {
                        assert(before.live(before.order@[i + 1]));
                        assert(before.linked(i + 1));
                        assert(before.order@[i + 1] != before.order@[0]);
                    }
                    assert(self@ =~= before@.skip(1));
                    assert(before@[0] == node.value);
                    assert forall|i: int|
                        0 <= i < self.free@.len() implies (#[trigger] self.free@[i])
                        < self.nodes@.len() && self.nodes@[self.free@[i] as int] is None by {
                        if i < before.free@.len() {
                            assert(self.free@[i] == before.free@[i]);
                        }
                    }
                    assert(!before.free@.contains(h));
                }
                Some(node.value)
            },
        }
    }

    /// Takes every node out; the chain that is returned has them.
    pub fn take_all(&mut self) -> (all: Chain<T>)
        requires
            old(self).wf(),
        ensures
            final(self).wf(),
            final(self)@ == Seq::<T>::empty(),
            all.wf(),
            all@ == old(self)@,
    {
        let mut all: Chain<T> = Chain::new();
        std::mem::swap(self, &mut all);
        all
    }

    /// The values in order.
    pub fn into_vec(self) -> (values: Vec<T>)
        requires
            self.wf(),
        ensures
            values@ == self@,
    {
        let ghost all = self@;
        let mut rest: Chain<T> = self;
        let mut values: Vec<T> = Vec::new();
        assert(values@ + rest@ =~= all);
        loop
            invariant
                rest.wf(),
                values@ + rest@ == all,
            ensures
                values@ == all,
            decreases rest@.len(),
        {
            let ghost so_far = values@;
            let ghost left = rest@;
            match rest.detach() {
                Some(value) => {
                    values.push(value);
                    assert(values@ + rest@ =~= so_far + left);
                },
                None => {
                    assert(values@ =~= all);
                    break;
                },
            }
        }
        values
    }

    /// The place of the head, for a walk.
    fn first(&self) -> (at: Cursor)
        requires
            self.wf(),
        ensures
            self.at(at, 0),
    {
        Cursor { place: self.head }
    }

    /// The cursor stands at the value `i` steps from the head, or behind the
    /// tail.
    spec fn at(&self, cursor: Cursor, i: int) -> bool {
        &&& 0 <= i <= self.order@.len()
        &&& cursor.place == (if i < self.order@.len() {
            Some(self.order@[i])
        } else {
            None
        })
    }

    /// The value at which a cursor stands, and the cursor one step on.
    fn step(&self, cursor: Cursor, i: Ghost<int>) -> (next: Option<(&T, Cursor)>)
        requires
            self.wf(),
            self.at(cursor, i@),
        ensures
            next is Some == (i@ < self@.len()),
            next matches Some((value, on)) ==> *value == self@[i@] && self.at(on, i@ + 1),
    {
        match cursor.place {
            None => None,
            Some(p) => {
                assert(self.live(self.order@[i@]) && self.linked(i@));
                match &self.nodes[p] {
                    Some(node) => Some((&node.value, Cursor { place: node.next })),
                    None => None,
                }
            },
        }
    }
}

/// A place in a chain.
#[derive(Debug, Clone, Copy, PartialEq, Eq, Structural)]
struct Cursor {
    place: Option<usize>,
}

/// A walk over the values of a chain from the head.
pub struct Iter<'a, T> {
    chain: &'a Chain<T>,
    current: Cursor,
    met: Ghost<int>,
}

impl<'a, T> Iter<'a, T> {
    /// The walk stands at a value or is over.
    pub closed spec fn wf(&self) -> bool {
        &&& self.chain.wf()
        &&& self.chain.at(self.current, self.met@)
    }

    /// The values that are still to come.
    pub closed spec fn remaining(&self) -> Seq<T> {
        self.chain@.skip(self.met@)
    }

    /// A walk that stands at the head.
    pub fn new(chain: &'a Chain<T>) -> (iter: Self)
        requires
            chain.wf(),
        ensures
            iter.wf(),
            iter.remaining() == chain@,
    {
        let iter: Iter<'a, T> = Iter { chain, current: chain.first(), met: Ghost(0) };
        assert(chain@.skip(0) =~= chain@);
        iter
    }

    /// The next value.
    pub fn next(&mut self) -> (value: Option<&'a T>)
        requires
            old(self).wf(),
        ensures
            final(self).wf(),
            value is Some == (old(self).remaining().len() > 0),
            value is None ==> final(self).remaining() == old(self).remaining(),
            value matches Some(v) ==> *v == old(self).remaining()[0] && final(self).remaining()
                == old(self).remaining().skip(1),
    {
        let chain: &'a Chain<T> = self.chain;
        match chain.step(self.current, Ghost(self.met@)) {
            None => None,
            Some((value, on)) => {
                let ghost met = self.met@;
                self.current = on;
                self.met = Ghost(met + 1);
                assert(chain@.skip(met).skip(1) =~= chain@.skip(met + 1));
                Some(value)
            },
        }
    }
}

} // verus!
