//! A bounded ring buffer of addresses.
//!
//! The slots are taken in turn. An empty slot holds the null address 0, so a
//! pushed null address occupies its turn but cannot be told from an empty slot.
//! The indices of the next push and the next pop count on without bound and wrap
//! with the machine word.
//!
//! A push reads the indices, puts its address into the slot of the next turn if
//! that is empty, and then stores the index; a pop reads the indices, empties the
//! slot of the oldest turn, and then stores the index. Each of these is an atomic
//! step, and the steps of several threads can interleave.
use vstd::prelude::*;

verus! {

/// The null address.
pub const NULL: usize = 0;

/// The number of slots of a new buffer.
pub const DEFAULT_BUFFER_CAP: usize = 32;

/// `n` is a power of two.
pub open spec fn is_power_of_two(n: usize) -> bool {
    exists|e: nat| n == #[trigger] vstd::arithmetic::power2::pow2(e)
}

/// The slot of turn `turn` among `cap` slots.
pub open spec fn slot_of(turn: int, cap: int) -> int {
    turn % cap
}

/// One more than the largest machine word.
pub open spec fn words() -> int {
    usize::MAX + 1
}

/// How many turns there are from index `head` to index `tail`.
pub open spec fn distance(head: usize, tail: usize) -> int {
    if tail >= head {
        tail - head
    } else {
        tail - head + words()
    }
}

/// A buffer as callers see it.
#[verifier::ext_equal]
pub struct RingView {
    /// The index of the next turn to be popped.
    pub head: usize,
    /// The index of the next turn to be pushed.
    pub tail: usize,
    /// What the slots hold.
    pub slots: Seq<usize>,
    /// The number of slots.
    pub cap: usize,
}

impl RingView {
    /// An empty buffer with `cap` slots.
    pub open spec fn unused(cap: usize) -> RingView {
        RingView { head: 0, tail: 0, slots: Seq::new(cap as nat, |i: int| NULL), cap }
    }

    /// There are as many slots as the capacity says, a power of two.
    pub open spec fn valid(self) -> bool {
        &&& is_power_of_two(self.cap)
        &&& self.slots.len() == self.cap
    }

    /// How many turns are taken.
    pub open spec fn count(self) -> int {
        distance(self.head, self.tail)
    }

    /// What the slot of the turn `i` behind the oldest one holds.
    pub open spec fn at(self, i: int) -> usize {
        self.slots[slot_of(self.head + i, self.cap as int)]
    }

    /// What the turns hold that are taken, from the oldest one on.
    pub open spec fn items(self) -> Seq<usize> {
        Seq::new(self.count() as nat, |i: int| self.at(i))
    }

    /// No thread is between two steps: at most as many turns are taken as there
    /// are slots, and the slots of the other turns are empty.
    pub open spec fn quiet(self) -> bool {
        &&& self.valid()
        &&& self.count() <= self.cap
        &&& forall|i: int| self.count() <= i < self.cap ==> (#[trigger] self.at(i)) == NULL
    }

    /// What the slot of the turn with the index `turn` holds.
    pub open spec fn of_turn(self, turn: usize) -> usize {
        self.slots[slot_of(turn as int, self.cap as int)]
    }

    /// `addr` is put into the slot of the turn `turn`, if that is empty.
    pub open spec fn put(self, turn: usize, addr: usize) -> RingView {
        if self.of_turn(turn) == NULL {
            RingView {
                slots: self.slots.update(slot_of(turn as int, self.cap as int), addr),
                ..self
            }
        } else {
            self
        }
    }

    /// The slot of the turn `turn` is emptied.
    pub open spec fn emptied(self, turn: usize) -> RingView {
        RingView { slots: self.slots.update(slot_of(turn as int, self.cap as int), NULL), ..self }
    }

    /// The turn after `turn` is the next one to be pushed.
    pub open spec fn tail_stored(self, turn: usize) -> RingView {
        RingView { tail: turn.wrapping_add(1), ..self }
    }

    /// The turn after `turn` is the next one to be popped.
    pub open spec fn head_stored(self, turn: usize) -> RingView {
        RingView { head: turn.wrapping_add(1), ..self }
    }

    /// A push that nobody disturbs takes the next turn: not every slot is taken,
    /// and the next one is empty.
    pub open spec fn admits(self) -> bool {
        self.tail.wrapping_sub(self.head) != self.cap && self.of_turn(self.tail) == NULL
    }

    /// The buffer after a push that nobody disturbs.
    pub open spec fn pushed(self, addr: usize) -> RingView {
        if self.admits() {
            self.put(self.tail, addr).tail_stored(self.tail)
        } else {
            self
        }
    }

    /// A pop that nobody disturbs ends the oldest turn: there is one, and it does
    /// not hold null.
    pub open spec fn yields(self) -> bool {
        self.head != self.tail && self.of_turn(self.head) != NULL
    }

    /// The buffer after a pop that nobody disturbs.
    pub open spec fn popped(self) -> RingView {
        if self.yields() {
            self.emptied(self.head).head_stored(self.head)
        } else {
            self
        }
    }
}

/// A bounded ring buffer.
pub struct AtomicBuffer {
    head: usize,
    tail: usize,
    slots: Vec<usize>,
    cap: usize,
    cap_mask: usize,
}

/// Masking picks the slot, and a power of two divides the number of machine
/// words.
proof fn lemma_mask(turn: usize, cap: usize)
    requires
        is_power_of_two(cap),
    ensures
        cap > 0,
        turn & ((cap - 1) as usize) == turn % cap,
        words() % cap as int == 0,
{
    let e = choose|e: nat| cap == #[trigger] vstd::arithmetic::power2::pow2(e);
    let mask = (cap - 1) as usize;
    let max = usize::MAX;
    assert(e < usize::BITS) by {
        vstd::arithmetic::power2::lemma2_to64();
        vstd::arithmetic::power2::lemma2_to64_rest();
        if e > usize::BITS {
            vstd::arithmetic::power2::lemma_pow2_strictly_increases(usize::BITS as nat, e);
        }
    }
    vstd::arithmetic::power2::lemma_pow2_pos(e);
    vstd::bits::lemma_usize_low_bits_mask_is_mod(turn, e);
    vstd::bits::lemma_usize_low_bits_mask_is_mod(max, e);
    assert(max & mask == mask) by {
        assert(max <= !0usize && !0usize & mask == mask) by (bit_vector);
    }
    let q = max / cap;
    assert(max == cap * (max / cap) + max % cap) by {
        vstd::arithmetic::div_mod::lemma_fundamental_div_mod(max as int, cap as int);
    }
    assert(words() == cap * (q + 1)) by (nonlinear_arith)
        requires
            words() == max + 1,
            max == cap * q + (cap - 1),
    ;
    vstd::arithmetic::div_mod::lemma_mod_multiples_basic(q + 1, cap as int);
    assert((q + 1) * cap == cap * (q + 1)) by (nonlinear_arith);
}

/// Turns that are fewer than `cap` apart have different slots, and so has the
/// turn after a wrapped one the slot after it.
proof fn lemma_slots_differ(head: int, i: int, j: int, cap: int)
    requires
        cap > 0,
        0 <= i < j,
        j - i < cap,
        head >= 0,
    ensures
        slot_of(head + i, cap) != slot_of(head + j, cap),
{
    if slot_of(head + i, cap) == slot_of(head + j, cap) {
        vstd::arithmetic::div_mod::lemma_fundamental_div_mod(head + i, cap);
        vstd::arithmetic::div_mod::lemma_fundamental_div_mod(head + j, cap);
        let a = (head + i) / cap;
        let b = (head + j) / cap;
        assert(cap * b - cap * a == j - i);
        assert(cap * b - cap * a == cap * (b - a)) by (nonlinear_arith);
        assert(b - a > 0 ==> cap * (b - a) >= cap) by (nonlinear_arith)
            requires
                cap > 0,
        ;
        assert(b - a <= 0 ==> cap * (b - a) <= 0) by (nonlinear_arith)
            requires
                cap > 0,
        ;
    }
}

/// A wrapped turn has the slot that it would have had without wrapping.
proof fn lemma_wraps(turn: int, cap: int)
    requires
        cap > 0,
        words() % cap == 0,
        turn >= 0,
    ensures
        slot_of(turn + words(), cap) == slot_of(turn, cap),
{
    vstd::arithmetic::div_mod::lemma_fundamental_div_mod(words(), cap);
    let q = words() / cap;
    vstd::arithmetic::div_mod::lemma_mod_multiples_vanish(q, turn, cap);
}

/// The turn behind those that are taken is the next one to be pushed.
proof fn lemma_tail_turn(ring: RingView)
    requires
        ring.valid(),
    ensures
        ring.cap > 0,
        slot_of(ring.head + ring.count(), ring.cap as int) == slot_of(
            ring.tail as int,
            ring.cap as int,
        ),
        ring.of_turn(ring.head) == ring.at(0),
        ring.count() == ring.tail.wrapping_sub(ring.head),
{
    lemma_mask(0, ring.cap);
    if ring.tail < ring.head {
        lemma_wraps(ring.tail as int, ring.cap as int);
    }
}

/// Changing the slot of one turn changes what no other turn holds.
proof fn lemma_slot_changed(ring: RingView, n: int, addr: usize)
    requires
        ring.valid(),
        0 <= n < ring.cap,
    ensures
        ({
            let after = RingView {
                slots: ring.slots.update(slot_of(ring.head + n, ring.cap as int), addr),
                ..ring
            };
            &&& after.valid()
            &&& after.at(n) == addr
            &&& forall|i: int| 0 <= i < ring.cap && i != n ==> (#[trigger] after.at(i)) == ring.at(i)
        }),
{
    lemma_mask(0, ring.cap);
    let cap = ring.cap as int;
    let after = RingView { slots: ring.slots.update(slot_of(ring.head + n, cap), addr), ..ring };
    assert forall|i: int| 0 <= i < cap && i != n implies (#[trigger] after.at(i)) == ring.at(i) by {
        if i < n {
            lemma_slots_differ(ring.head as int, i, n, cap);
        } else {
            lemma_slots_differ(ring.head as int, n, i, cap);
        }
    }
}

/// Storing the head moves every turn one up.
proof fn lemma_head_moves(ring: RingView)
    requires
        ring.valid(),
    ensures
        ({
            let after = ring.head_stored(ring.head);
            &&& after.valid()
            &&& forall|i: int| 0 <= i < ring.cap - 1 ==> (#[trigger] after.at(i)) == ring.at(i + 1)
            &&& after.at(ring.cap - 1) == ring.at(0)
            &&& ring.count() > 0 ==> after.count() == ring.count() - 1
        }),
{
    lemma_mask(0, ring.cap);
    let cap = ring.cap as int;
    let after = ring.head_stored(ring.head);
    assert forall|i: int| 0 <= i < cap - 1 implies (#[trigger] after.at(i)) == ring.at(i + 1) by {
        if ring.head == usize::MAX {
            lemma_wraps(i, cap);
        }
    }
    assert(slot_of(after.head + (cap - 1), cap) == slot_of(ring.head + 0, cap)) by {
        vstd::arithmetic::div_mod::lemma_mod_add_multiples_vanish(ring.head as int, cap);
        if ring.head == usize::MAX {
            lemma_wraps(cap - 1, cap);
            lemma_wraps(ring.head + cap - words(), cap);
        }
    }
}

/// What a push does to a quiet buffer.
proof fn lemma_pushed(ring: RingView, addr: usize)
    requires
        ring.quiet(),
    ensures
        ring.admits() == (ring.count() < ring.cap),
        ring.pushed(addr).quiet(),
        ring.pushed(addr).items() == (if ring.count() < ring.cap {
            ring.items().push(addr)
        } else {
            ring.items()
        }),
{
    lemma_tail_turn(ring);
    if ring.count() < ring.cap {
        lemma_slot_changed(ring, ring.count(), addr);
        let after = ring.pushed(addr);
        let put = ring.put(ring.tail, addr);
        assert(ring.at(ring.count()) == NULL);
        assert(after.count() == ring.count() + 1);
        assert forall|i: int| 0 <= i < ring.cap implies (#[trigger] after.at(i)) == put.at(i) by {}
        assert(after.items() =~= ring.items().push(addr));
    }
}

/// What a pop does to a quiet buffer.
proof fn lemma_popped(ring: RingView)
    requires
        ring.quiet(),
    ensures
        ring.yields() == (ring.count() > 0 && ring.at(0) != NULL),
        ring.popped().quiet(),
        ring.popped().items() == (if ring.yields() {
            ring.items().skip(1)
        } else {
            ring.items()
        }),
{
    lemma_tail_turn(ring);
    if ring.yields() {
        lemma_slot_changed(ring, 0, NULL);
        let mid = ring.emptied(ring.head);
        lemma_head_moves(mid);
        let after = ring.popped();
        assert forall|i: int| after.count() <= i < ring.cap implies (#[trigger] after.at(i))
            == NULL by {
            if i < ring.cap - 1 {
                assert(after.at(i) == mid.at(i + 1));
                assert(mid.at(i + 1) == ring.at(i + 1));
            }
        }
        assert forall|i: int| 0 <= i < after.count() implies (#[trigger] after.at(i)) == ring.at(
            i + 1,
        ) by {
            assert(after.at(i) == mid.at(i + 1));
        }
        assert(after.items() =~= ring.items().skip(1));
    }
}

impl View for AtomicBuffer {
    type V = RingView;

    closed spec fn view(&self) -> RingView {
        RingView { head: self.head, tail: self.tail, slots: self.slots@, cap: self.cap }
    }
}

impl AtomicBuffer {
    /// The slots are as the capacity says.
    pub closed spec fn wf(&self) -> bool {
        &&& self@.valid()
        &&& self.cap_mask == self.cap - 1
    }

    /// An empty buffer with the default number of slots.
    pub fn new() -> (buffer: Self)
        ensures
            buffer.wf(),
            buffer@ == RingView::unused(DEFAULT_BUFFER_CAP),
            buffer@.quiet(),
            buffer@.items().len() == 0,
    {
        proof {
            vstd::arithmetic::power2::lemma2_to64();
            assert(DEFAULT_BUFFER_CAP == vstd::arithmetic::power2::pow2(5));
        }
        Self::with_capacity(DEFAULT_BUFFER_CAP)
    }

    /// An empty buffer with `cap` slots.
    pub fn with_capacity(cap: usize) -> (buffer: Self)
        requires
            is_power_of_two(cap),
        ensures
            buffer.wf(),
            buffer@ == RingView::unused(cap),
            buffer@.quiet(),
            buffer@.items().len() == 0,
    {
        proof {
            lemma_mask(0, cap);
        }
        let mut slots: Vec<usize> = Vec::new();
        let mut i: usize = 0;
        while i < cap
            invariant
                i <= cap,
                slots@.len() == i,
                forall|j: int| 0 <= j < i ==> slots@[j] == NULL,
            decreases cap - i,
        {
            slots.push(NULL);
            i = i + 1;
        }
        let buffer: AtomicBuffer = AtomicBuffer { head: 0, tail: 0, slots, cap, cap_mask: cap - 1 };
        proof {
            assert forall|j: int| 0 <= j < cap implies (#[trigger] buffer@.at(j)) == NULL by {
                vstd::arithmetic::div_mod::lemma_small_mod(j as nat, cap as nat);
            }
            assert(buffer@.slots =~= RingView::unused(cap).slots);
        }
        buffer
    }

    /// The number of slots.
    #[inline]
    pub fn capacity(&self) -> (cap: usize)
        ensures
            cap == self@.cap,
    {
        self.cap
    }

    /// Reads the index of the next turn to be pushed.
    #[inline]
    pub fn load_tail(&self) -> (tail: usize)
        ensures
            tail == self@.tail,
    {
        self.tail
    }

    /// Reads the index of the next turn to be popped.
    #[inline]
    pub fn load_head(&self) -> (head: usize)
        ensures
            head == self@.head,
    {
        self.head
    }

    /// The slot of the turn `turn`.
    #[inline]
    fn slot_index(&self, turn: usize) -> (idx: usize)
        requires
            self.wf(),
        ensures
            idx == slot_of(turn as int, self.cap as int),
            idx < self.slots@.len(),
    {
        proof {
            lemma_mask(turn, self.cap);
        }
        turn & self.cap_mask
    }

    /// Puts `addr` into the slot of the turn `turn`, if that is empty; tells
    /// whether it was.
    #[inline]
    pub fn put(&mut self, turn: usize, addr: usize) -> (done: bool)
        requires
            old(self).wf(),
        ensures
            final(self).wf(),
            done == (old(self)@.of_turn(turn) == NULL),
            final(self)@ == old(self)@.put(turn, addr),
    {
        let idx: usize = self.slot_index(turn);
        if self.slots[idx] == NULL {
            self.slots.set(idx, addr);
            true
        } else {
            false
        }
    }

    /// Stores that the turn `turn` has been pushed.
    #[inline]
    pub fn store_tail(&mut self, turn: usize)
        requires
            old(self).wf(),
        ensures
            final(self).wf(),
            final(self)@ == old(self)@.tail_stored(turn),
    {
        self.tail = turn.wrapping_add(1);
    }

    /// Empties the slot of the turn `turn` and returns what it held, if that is
    /// not null.
    #[inline]
    pub fn take(&mut self, turn: usize) -> (addr: Option<usize>)
        requires
            old(self).wf(),
        ensures
            final(self).wf(),
            addr == (if old(self)@.of_turn(turn) != NULL {
                Some(old(self)@.of_turn(turn))
            } else {
                None
            }),
            final(self)@ == old(self)@.emptied(turn),
    {
        let idx: usize = self.slot_index(turn);
        let val: usize = self.slots[idx];
        self.slots.set(idx, NULL);
        if val != NULL {
            Some(val)
        } else {
            None
        }
    }

    /// Stores that the turn `turn` has been popped.
    #[inline]
    pub fn store_head(&mut self, turn: usize)
        requires
            old(self).wf(),
        ensures
            final(self).wf(),
            final(self)@ == old(self)@.head_stored(turn),
    {
        self.head = turn.wrapping_add(1);
    }

    /// Gives the address the next turn, in steps that nobody disturbs; returns it
    /// if every slot is taken, or the next one is not empty.
    #[inline]
    pub fn push(&mut self, addr: usize) -> (r: Result<(), usize>)
        requires
            old(self).wf(),
        ensures
            final(self).wf(),
            r == (if old(self)@.admits() {
                Ok(())
            } else {
                Err(addr)
            }),
            final(self)@ == old(self)@.pushed(addr),
            old(self)@.quiet() ==> {
                &&& final(self)@.quiet()
                &&& r is Ok == (old(self)@.items().len() < old(self)@.cap)
                &&& final(self)@.items() == (if r is Ok {
                    old(self)@.items().push(addr)
                } else {
                    old(self)@.items()
                })
            },
    {
        proof {
            if self@.quiet() {
                lemma_pushed(self@, addr);
            }
        }
        let tail: usize = self.load_tail();
        let head: usize = self.load_head();
        if tail.wrapping_sub(head) == self.cap {
            return Err(addr);
        }
        if self.put(tail, addr) {
            self.store_tail(tail);
            Ok(())
        } else {
            Err(addr)
        }
    }

    /// Ends the oldest turn, in steps that nobody disturbs, and returns its
    /// address. Nothing is returned, and nothing changes, where no turn is taken
    /// or the oldest one holds null.
    #[inline]
    pub fn pop(&mut self) -> (r: Option<usize>)
        requires
            old(self).wf(),
        ensures
            final(self).wf(),
            r == (if old(self)@.yields() {
                Some(old(self)@.of_turn(old(self)@.head))
            } else {
                None
            }),
            final(self)@ == old(self)@.popped(),
            old(self)@.quiet() ==> {
                &&& final(self)@.quiet()
                &&& r == (if old(self)@.items().len() > 0 && old(self)@.items()[0] != NULL {
                    Some(old(self)@.items()[0])
                } else {
                    None
                })
                &&& final(self)@.items() == (if r is Some {
                    old(self)@.items().skip(1)
                } else {
                    old(self)@.items()
                })
            },
    {
        proof {
            lemma_tail_turn(self@);
            if self@.quiet() {
                lemma_popped(self@);
            }
        }
        let head: usize = self.load_head();
        let tail: usize = self.load_tail();
        if head == tail {
            return None;
        }
        let ghost before = self@;
        match self.take(head) {
            Some(addr) => {
                self.store_head(head);
                Some(addr)
            },
            None => {
                assert(self@.slots =~= before.slots);
                None
            },
        }
    }
}

/// Addresses come out in the order in which they went in: a pop after a push into
/// a buffer that has room gives the address that was there first.
pub proof fn law_first_in_first_out(ring: RingView, addr: usize)
    requires
        ring.quiet(),
        ring.count() < ring.cap,
        addr != NULL,
    ensures
        ring.count() == 0 ==> ring.pushed(addr).popped().items() == ring.items(),
        ring.count() > 0 && ring.at(0) != NULL ==> ring.pushed(addr).popped().items()
            == ring.popped().pushed(addr).items(),
{
    lemma_pushed(ring, addr);
    lemma_popped(ring);
    lemma_popped(ring.pushed(addr));
    lemma_pushed(ring.popped(), addr);
    let pushed = ring.pushed(addr);
    assert(pushed.items().len() == pushed.count());
    lemma_tail_turn(pushed);
    assert(pushed.at(0) == pushed.items()[0]);
    if ring.count() == 0 {
        assert(pushed.popped().items() =~= ring.items());
    } else if ring.at(0) != NULL {
        assert(ring.items()[0] == ring.at(0));
        assert(ring.popped().items().len() == ring.popped().count());
        assert(pushed.popped().items() =~= ring.popped().pushed(addr).items());
    }
}

/// A quiet buffer never holds more than its capacity.
pub proof fn law_capacity_is_kept(ring: RingView, addr: usize)
    requires
        ring.quiet(),
    ensures
        ring.items().len() <= ring.cap,
        ring.pushed(addr).items().len() <= ring.cap,
        ring.popped().items().len() <= ring.cap,
{
    lemma_pushed(ring, addr);
    lemma_popped(ring);
}

/// A buffer together with the threads that are between two steps.
pub struct BufferWorld {
    pub ring: RingView,
    /// The address that a thread has put into the slot of the next turn; its
    /// index is still to be stored.
    pub pushing: Option<usize>,
    /// A thread has emptied the slot of the oldest turn; its index is still to be
    /// stored.
    pub popping: bool,
}

impl BufferWorld {
    /// Every turn that is taken holds an address but for the oldest one, if that
    /// is being popped, and the slots of the other turns are empty but for the
    /// next one, if that is being pushed.
    pub open spec fn consistent(self) -> bool {
        &&& self.ring.valid()
        &&& self.ring.count() <= self.ring.cap
        &&& self.pushing matches Some(addr) ==> self.ring.count() < self.ring.cap && addr != NULL
            && self.ring.at(self.ring.count()) == addr
        &&& self.popping ==> self.ring.count() > 0
        &&& forall|i: int|
            0 <= i < self.ring.count() ==> ((#[trigger] self.ring.at(i)) == NULL <==> i == 0
                && self.popping)
        &&& forall|i: int|
            self.ring.count() <= i < self.ring.cap ==> ((#[trigger] self.ring.at(i)) == NULL
                <==> !(i == self.ring.count() && self.pushing is Some))
    }

    /// The addresses that have been put in and not been taken out, in order.
    pub open spec fn contents(self) -> Seq<usize> {
        (if self.popping {
            self.ring.items().skip(1)
        } else {
            self.ring.items()
        }) + (match self.pushing {
            Some(addr) => seq![addr],
            None => Seq::empty(),
        })
    }

    /// The world after a thread has put `addr` into the slot of the next turn.
    pub open spec fn after_put(self, addr: usize) -> BufferWorld {
        BufferWorld {
            ring: self.ring.put(self.ring.tail, addr),
            pushing: Some(addr),
            ..self
        }
    }

    /// The world after the thread that pushes has stored its index.
    pub open spec fn after_store_tail(self) -> BufferWorld {
        BufferWorld { ring: self.ring.tail_stored(self.ring.tail), pushing: None, ..self }
    }

    /// The world after a thread has emptied the slot of the oldest turn.
    pub open spec fn after_take(self) -> BufferWorld {
        BufferWorld { ring: self.ring.emptied(self.ring.head), popping: true, ..self }
    }

    /// The world after the thread that pops has stored its index.
    pub open spec fn after_store_head(self) -> BufferWorld {
        BufferWorld { ring: self.ring.head_stored(self.ring.head), popping: false, ..self }
    }
}

/// A push overwrites and loses nothing, whatever other threads are between two
/// steps, as long as the index that it read is still the one of the next turn when
/// it puts its address there: the address joins the others at the end. Where
/// another thread is pushing, the slot is not empty and the push is refused.
pub proof fn law_interleaved_push_keeps_addresses(world: BufferWorld, addr: usize)
    requires
        world.consistent(),
        world.ring.count() < world.ring.cap,
        addr != NULL,
    ensures
        world.ring.of_turn(world.ring.tail) != NULL <==> world.pushing is Some,
        world.pushing is Some ==> world.ring.put(world.ring.tail, addr) == world.ring,
        world.pushing is None ==> {
            &&& world.after_put(addr).consistent()
            &&& world.after_put(addr).contents() == world.contents().push(addr)
            &&& world.after_put(addr).after_store_tail().consistent()
        },
{
    lemma_tail_turn(world.ring);
    if world.pushing is None {
        lemma_slot_changed(world.ring, world.ring.count(), addr);
        let after = world.after_put(addr);
        assert(after.ring.items() =~= world.ring.items());
        assert(after.contents() =~= world.contents().push(addr));
        law_stored_tail_keeps_addresses(after);
    }
}

/// Storing the index of a push changes none of the addresses.
pub proof fn law_stored_tail_keeps_addresses(world: BufferWorld)
    requires
        world.consistent(),
        world.pushing is Some,
    ensures
        world.after_store_tail().consistent(),
        world.after_store_tail().contents() == world.contents(),
{
    lemma_tail_turn(world.ring);
    let after = world.after_store_tail();
    assert(after.ring.count() == world.ring.count() + 1);
    assert forall|i: int| 0 <= i < world.ring.cap implies (#[trigger] after.ring.at(i))
        == world.ring.at(i) by {}
    assert(after.ring.items() =~= world.ring.items().push(world.pushing->0));
    assert(after.contents() =~= world.contents());
}

/// A pop takes the address that came first and loses no other, whatever other
/// threads are between two steps, as long as the index that it read is still the
/// one of the oldest turn when it empties its slot. Where another thread is
/// popping, the slot is empty and the pop gets nothing.
pub proof fn law_interleaved_pop_keeps_addresses(world: BufferWorld)
    requires
        world.consistent(),
        world.ring.count() > 0,
    ensures
        world.ring.of_turn(world.ring.head) == NULL <==> world.popping,
        world.popping ==> world.ring.emptied(world.ring.head) == world.ring,
        !world.popping ==> {
            &&& world.contents().len() > 0
            &&& world.ring.of_turn(world.ring.head) == world.contents()[0]
            &&& world.after_take().consistent()
            &&& world.after_take().contents() == world.contents().skip(1)
            &&& world.after_take().after_store_head().consistent()
        },
{
    lemma_tail_turn(world.ring);
    assert(world.ring.at(0) == world.ring.items()[0]);
    if world.popping {
        assert(world.ring.emptied(world.ring.head).slots =~= world.ring.slots);
    } else {
        lemma_slot_changed(world.ring, 0, NULL);
        let after = world.after_take();
        assert(after.ring.items().skip(1) =~= world.ring.items().skip(1));
        assert(after.contents() =~= world.contents().skip(1));
        law_stored_head_keeps_addresses(after);
    }
}

/// Storing the index of a pop changes none of the addresses.
pub proof fn law_stored_head_keeps_addresses(world: BufferWorld)
    requires
        world.consistent(),
        world.popping,
    ensures
        world.after_store_head().consistent(),
        world.after_store_head().contents() == world.contents(),
{
    lemma_tail_turn(world.ring);
    lemma_head_moves(world.ring);
    let after = world.after_store_head();
    let n = world.ring.count();
    assert forall|i: int| 0 <= i < world.ring.cap implies (#[trigger] after.ring.at(i)) == (if i
        < world.ring.cap - 1 {
        world.ring.at(i + 1)
    } else {
        world.ring.at(0)
    }) by {}
    assert(world.ring.at(0) == NULL);
    assert(after.ring.items() =~= world.ring.items().skip(1));
    assert(after.contents() =~= world.contents());
}

/// Room that a push has seen stays: while the index of the next turn is the one
/// that it read, pops of others only make more room.
pub proof fn law_seen_room_stays(ring: RingView, seen_head: usize)
    requires
        distance(seen_head, ring.tail) <= ring.cap,
        ring.tail.wrapping_sub(seen_head) != ring.cap,
        distance(seen_head, ring.head) <= distance(seen_head, ring.tail),
    ensures
        ring.count() < ring.cap,
{
}

/// A turn that a pop has seen stays: while the index of the oldest turn is the one
/// that it read, pushes of others only add turns.
pub proof fn law_seen_turn_stays(ring: RingView, seen_tail: usize)
    requires
        ring.head != seen_tail,
        distance(ring.head, seen_tail) <= ring.count(),
    ensures
        ring.count() > 0,
{
}

/// A push that nobody disturbs is refused exactly where every slot is taken or
/// another push is under way, and a pop where no turn is taken or another pop is
/// under way; one that is not refused is its two steps, and one that is refused
/// changes nothing.
pub proof fn law_undisturbed_calls_are_their_steps(world: BufferWorld, addr: usize)
    requires
        world.consistent(),
        addr != NULL,
    ensures
        world.ring.admits() <==> world.ring.count() < world.ring.cap && world.pushing is None,
        world.ring.yields() <==> world.ring.count() > 0 && !world.popping,
        world.ring.admits() ==> world.ring.pushed(addr) == world.ring.put(
            world.ring.tail,
            addr,
        ).tail_stored(world.ring.tail),
        !world.ring.admits() ==> world.ring.pushed(addr) == world.ring,
        world.ring.yields() ==> world.ring.popped() == world.ring.emptied(
            world.ring.head,
        ).head_stored(world.ring.head),
        !world.ring.yields() ==> world.ring.popped() == world.ring,
{
    lemma_tail_turn(world.ring);
    assert(world.ring.tail.wrapping_sub(world.ring.head) == world.ring.count());
    if world.ring.count() < world.ring.cap {
        law_interleaved_push_keeps_addresses(world, addr);
    }
    assert(world.ring.count() > 0 ==> world.ring.at(0) == world.ring.items()[0]);
}

/// A step changes one slot or one index: an address goes only into an empty slot,
/// emptying leaves null, and an index moves on by one.
pub proof fn law_a_step_changes_one_thing(ring: RingView, turn: usize, addr: usize, s: int)
    requires
        ring.valid(),
        0 <= s < ring.cap,
    ensures
        ring.of_turn(turn) != NULL ==> ring.put(turn, addr) == ring,
        ring.of_turn(turn) == NULL ==> ring.put(turn, addr).of_turn(turn) == addr,
        ring.emptied(turn).of_turn(turn) == NULL,
        s != turn as int % ring.cap as int ==> ring.put(turn, addr).slots[s] == ring.slots[s]
            && ring.emptied(turn).slots[s] == ring.slots[s],
        ring.put(turn, addr).head == ring.head && ring.put(turn, addr).tail == ring.tail,
        ring.emptied(turn).head == ring.head && ring.emptied(turn).tail == ring.tail,
        turn < usize::MAX ==> ring.tail_stored(turn).tail == turn + 1 && ring.head_stored(
            turn,
        ).head == turn + 1,
        turn == usize::MAX ==> ring.tail_stored(turn).tail == 0 && ring.head_stored(turn).head
            == 0,
        ring.tail_stored(turn).slots == ring.slots && ring.tail_stored(turn).head == ring.head,
        ring.head_stored(turn).slots == ring.slots && ring.head_stored(turn).tail == ring.tail,
        ring.of_turn(turn) == ring.slots[turn as int % ring.cap as int],
{
    lemma_mask(turn, ring.cap);
}

/// A new buffer has its slots, all of them empty, and both indices at 0.
pub proof fn law_a_new_buffer_is_empty(cap: usize, s: int)
    requires
        0 <= s < cap,
    ensures
        RingView::unused(cap).slots.len() == cap,
        RingView::unused(cap).slots[s] == NULL,
        RingView::unused(cap).head == 0,
        RingView::unused(cap).tail == 0,
        RingView::unused(cap).cap == cap,
        RingView::unused(cap).items().len() == 0,
{
}

} // verus!
