//! A queue over blocks of slots.
//!
//! A thread that pushes claims the next turn for writing and then publishes its
//! value there; one that pops claims the next turn for reading, waits until its
//! value has been published and takes it. The turns that are in use occupy a
//! ring of slots, which the slots of all blocks form. A claim that fills the ring
//! adds a block to it, so that there is always a free slot.
use vstd::prelude::*;

verus! {

/// The number of slots of a block.
pub const BLOCK_CAP: usize = 32;

/// Masks the slot within its block.
const BLOCK_CAP_MASK: usize = BLOCK_CAP - 1;

/// Shifts the block of a slot.
const BLOCK_SHIFT: u32 = 5;

/// The block of slot `pos`.
#[inline]
pub fn block_index(pos: usize) -> (block: usize)
    ensures
        block == pos / BLOCK_CAP,
{
    assert(pos >> 5u32 == pos / 32) by (bit_vector);
    pos >> BLOCK_SHIFT
}

/// The place of slot `pos` within its block.
#[inline]
pub fn index_in_block(pos: usize) -> (index: usize)
    ensures
        index == pos % BLOCK_CAP,
{
    assert(pos & 31 == pos % 32) by (bit_vector);
    pos & BLOCK_CAP_MASK
}

/// A slot.
pub enum Slot<T> {
    /// Nothing has been written. The slot of a turn that has been claimed for
    /// writing is still empty.
    Empty,
    /// A value that is to be read.
    Ready(T),
    /// The value has been read, and turns before this one are still in use.
    Taken,
}

/// A queue as callers see it.
#[verifier::ext_equal]
pub struct VecView<T> {
    /// The turns that are in use.
    pub turns: Seq<Slot<T>>,
    /// The ticket of the first of them; tickets start again at 0 after the last
    /// one.
    pub first: usize,
    /// How many of them have been claimed for reading: the first ones.
    pub reading: nat,
    /// The number of slots.
    pub cap: nat,
    /// Handles to the queue.
    pub refs: nat,
}

impl<T> VecView<T> {
    /// A queue of one block, with one handle.
    pub open spec fn unused() -> VecView<T> {
        VecView { turns: Seq::empty(), first: 0, reading: 0, cap: BLOCK_CAP as nat, refs: 1 }
    }

    /// There is a free slot, the slots are whole blocks, only what has been
    /// claimed for reading has been read, and the first turn has not been.
    pub open spec fn valid(self) -> bool {
        &&& self.turns.len() < self.cap
        &&& self.cap % BLOCK_CAP as nat == 0
        &&& self.reading <= self.turns.len()
        &&& forall|i: int| self.reading <= i < self.turns.len() ==> self.turns[i] !is Taken
        &&& self.turns.len() > 0 ==> self.turns[0] !is Taken
    }

    /// Nobody is between a claim and what it was made for.
    pub open spec fn settled(self) -> bool {
        &&& self.reading == 0
        &&& forall|i: int| 0 <= i < self.turns.len() ==> self.turns[i] is Ready
    }

    /// The values of a settled queue, from the first one to be popped to the
    /// last one pushed.
    pub open spec fn items(self) -> Seq<T> {
        Seq::new(self.turns.len(), |i: int| self.turns[i]->Ready_0)
    }

    /// The ticket of turn `i`.
    pub open spec fn ticket_of(self, i: int) -> usize {
        self.first.wrapping_add(i as usize)
    }

    /// The turn that has the ticket `ticket`.
    pub open spec fn turn_of(self, ticket: usize) -> int {
        ticket.wrapping_sub(self.first) as int
    }

    /// The number of slots once one more turn is in use: filling the slots adds
    /// a block.
    pub open spec fn grown_cap(self) -> nat {
        if self.turns.len() + 1 >= self.cap {
            self.cap + BLOCK_CAP as nat
        } else {
            self.cap
        }
    }

    /// The queue after a turn has been claimed for writing.
    pub open spec fn claimed(self) -> VecView<T> {
        VecView { turns: self.turns.push(Slot::Empty), cap: self.grown_cap(), ..self }
    }

    /// The queue after `value` has been published in turn `i`.
    pub open spec fn published(self, i: int, value: T) -> VecView<T> {
        VecView { turns: self.turns.update(i, Slot::Ready(value)), ..self }
    }

    /// The queue after a push.
    pub open spec fn pushed(self, value: T) -> VecView<T> {
        VecView { turns: self.turns.push(Slot::Ready(value)), cap: self.grown_cap(), ..self }
    }

    /// The queue after a turn has been claimed for reading.
    pub open spec fn read_claimed(self) -> VecView<T> {
        VecView { reading: self.reading + 1, ..self }
    }

    /// The queue without its first turn.
    pub open spec fn advanced(self) -> VecView<T> {
        VecView {
            turns: self.turns.skip(1),
            first: self.first.wrapping_add(1),
            reading: (self.reading - 1) as nat,
            ..self
        }
    }

    /// The queue without the turns at its front that have been read.
    pub open spec fn trimmed(self) -> VecView<T>
        decreases self.turns.len(),
    {
        if self.turns.len() > 0 && self.turns[0] is Taken {
            self.advanced().trimmed()
        } else {
            self
        }
    }

    /// Turn `i` has been read.
    pub open spec fn marked(self, i: int) -> VecView<T> {
        VecView { turns: self.turns.update(i, Slot::Taken), ..self }
    }

    /// The queue after the value of turn `i` has been taken.
    pub open spec fn taken(self, i: int) -> VecView<T> {
        self.marked(i).trimmed()
    }

    /// The queue after a pop that nobody disturbs.
    pub open spec fn popped(self) -> VecView<T> {
        if self.turns.len() > 0 {
            self.read_claimed().advanced()
        } else {
            self
        }
    }
}

/// A queue, which its handles share.
pub struct AtomicVec<T> {
    blocks: Vec<Vec<Slot<T>>>,
    start: usize,
    first: usize,
    reading: usize,
    len: usize,
    cap: usize,
    ref_count: usize,
}

/// Slot `pos`.
spec fn slot_at<T>(blocks: Seq<Vec<Slot<T>>>, pos: int) -> Slot<T> {
    blocks[pos / BLOCK_CAP as int]@[pos % BLOCK_CAP as int]
}

/// The slot `i` turns behind the slot `start` in a ring of `cap` slots.
spec fn ring(start: int, i: int, cap: int) -> int {
    if start + i < cap {
        start + i
    } else {
        start + i - cap
    }
}

impl<T> View for AtomicVec<T> {
    type V = VecView<T>;

    closed spec fn view(&self) -> VecView<T> {
        VecView {
            turns: Seq::new(
                self.len as nat,
                |i: int| slot_at(self.blocks@, ring(self.start as int, i, self.cap as int)),
            ),
            first: self.first,
            reading: self.reading as nat,
            cap: self.cap as nat,
            refs: self.ref_count as nat,
        }
    }
}

impl<T> AtomicVec<T> {
    /// Every block is whole.
    spec fn whole(&self) -> bool {
        &&& self.cap == self.blocks@.len() * BLOCK_CAP
        &&& forall|b: int|
            0 <= b < self.blocks@.len() ==> (#[trigger] self.blocks@[b])@.len() == BLOCK_CAP
    }

    /// The blocks are whole, and the slots of the turns that are not in use are
    /// empty.
    spec fn laid_out(&self) -> bool {
        &&& self.whole()
        &&& self.len < self.cap
        &&& self.start < self.cap
        &&& forall|i: int|
            self.len <= i < self.cap ==> slot_at(
                self.blocks@,
                #[trigger] ring(self.start as int, i, self.cap as int),
            ) is Empty
        &&& self.reading <= self.len
        &&& forall|i: int|
            self.reading <= i < self.len ==> (#[trigger] self@.turns[i]) !is Taken
    }

    /// The slots hold the turns that are in use and nothing else, and the first
    /// turn has not been read.
    pub closed spec fn wf(&self) -> bool {
        &&& self.laid_out()
        &&& self.len > 0 ==> self@.turns[0] !is Taken
    }

    /// What `wf` says of the view.
    pub proof fn lemma_wf_is_valid(&self)
        requires
            self.wf(),
        ensures
            self@.valid(),
    {
        assert((self.blocks@.len() * BLOCK_CAP) % (BLOCK_CAP as int) == 0) by (nonlinear_arith);
    }

    /// A block without values.
    fn new_block() -> (block: Vec<Slot<T>>)
        ensures
            block@.len() == BLOCK_CAP,
            forall|i: int| 0 <= i < BLOCK_CAP ==> (#[trigger] block@[i]) is Empty,
    {
        let mut block: Vec<Slot<T>> = Vec::new();
        let mut i: usize = 0;
        while i < BLOCK_CAP
            invariant
                i <= BLOCK_CAP,
                block@.len() == i,
                forall|j: int| 0 <= j < i ==> (#[trigger] block@[j]) is Empty,
            decreases BLOCK_CAP - i,
        {
            block.push(Slot::Empty);
            i = i + 1;
        }
        block
    }

    /// An empty queue with one block.
    #[inline]
    pub fn new() -> (queue: Self)
        ensures
            queue.wf(),
            queue@ == VecView::<T>::unused(),
    {
        let mut blocks: Vec<Vec<Slot<T>>> = Vec::new();
        blocks.push(Self::new_block());
        let queue: AtomicVec<T> = AtomicVec {
            blocks,
            start: 0,
            first: 0,
            reading: 0,
            len: 0,
            cap: BLOCK_CAP,
            ref_count: 1,
        };
        assert(queue@.turns =~= Seq::<Slot<T>>::empty());
        queue
    }

    /// The number of turns that have been claimed for writing and not for
    /// reading; in a settled queue these are its values.
    #[inline]
    pub fn len(&self) -> (len: usize)
        requires
            self.wf(),
        ensures
            len == self@.turns.len() - self@.reading,
    {
        self.len - self.reading
    }

    /// The number of slots.
    #[inline]
    pub fn capacity(&self) -> (cap: usize)
        ensures
            cap == self@.cap,
    {
        self.cap
    }

    /// Whether there is no turn to be claimed for reading.
    #[inline]
    pub fn is_empty(&self) -> (empty: bool)
        requires
            self.wf(),
        ensures
            empty == (self@.turns.len() == self@.reading),
    {
        self.len() == 0
    }

    /// The slot of turn `i`.
    fn turn(&self, i: usize) -> (pos: usize)
        requires
            self.laid_out(),
            i < self.cap,
        ensures
            pos == ring(self.start as int, i as int, self.cap as int),
            pos < self.cap,
    {
        if i < self.cap - self.start {
            self.start + i
        } else {
            i - (self.cap - self.start)
        }
    }

    /// Where slot `pos` is.
    fn place(&self, pos: usize) -> (place: (usize, usize))
        requires
            self.whole(),
            pos < self.cap,
        ensures
            place.0 == pos / BLOCK_CAP,
            place.1 == pos % BLOCK_CAP,
            place.0 < self.blocks@.len(),
            place.1 < BLOCK_CAP,
    {
        (block_index(pos), index_in_block(pos))
    }

    /// What turn `i` holds.
    fn look(&self, i: usize) -> (slot: &Slot<T>)
        requires
            self.laid_out(),
            i < self.len,
        ensures
            *slot == self@.turns[i as int],
    {
        let (block, index): (usize, usize) = self.place(self.turn(i));
        &self.blocks[block][index]
    }

    /// Puts `content` into slot `pos` and returns what was there.
    fn exchange(&mut self, pos: usize, content: Slot<T>) -> (before: Slot<T>)
        requires
            old(self).whole(),
            pos < old(self).cap,
        ensures
            final(self).whole(),
            final(self).start == old(self).start,
            final(self).first == old(self).first,
            final(self).reading == old(self).reading,
            final(self).len == old(self).len,
            final(self).cap == old(self).cap,
            final(self).ref_count == old(self).ref_count,
            before == slot_at(old(self).blocks@, pos as int),
            slot_at(final(self).blocks@, pos as int) == content,
            forall|p: int|
                0 <= p < old(self).cap && p != pos ==> #[trigger] slot_at(final(self).blocks@, p)
                    == slot_at(old(self).blocks@, p),
    {
        let (block, index): (usize, usize) = self.place(pos);
        let mut content: Slot<T> = content;
        std::mem::swap(&mut self.blocks[block][index], &mut content);
        content
    }

    /// Puts `content` into turn `i` and returns what was there.
    fn replace(&mut self, i: usize, content: Slot<T>) -> (before: Slot<T>)
        requires
            old(self).laid_out(),
            i < old(self).len,
            content is Taken ==> i < old(self).reading,
        ensures
            final(self).laid_out(),
            before == old(self)@.turns[i as int],
            final(self)@ == (VecView {
                turns: old(self)@.turns.update(i as int, content),
                ..old(self)@
            }),
    {
        let ghost old_self = *self;
        let pos: usize = self.turn(i);
        let before: Slot<T> = self.exchange(pos, content);
        proof {
            assert forall|j: int| 0 <= j < self.cap && j != i implies slot_at(
                self.blocks@,
                #[trigger] ring(self.start as int, j, self.cap as int),
            ) == slot_at(old_self.blocks@, ring(self.start as int, j, self.cap as int)) by {
                assert(ring(self.start as int, j, self.cap as int) != pos);
            }
            assert(self@.turns =~= old_self@.turns.update(i as int, content));
        }
        before
    }

    /// Adds a block to a ring that is full but for one slot, with the first
    /// turn in the first slot.
    fn add_block(&mut self)
        requires
            old(self).wf(),
            old(self).cap <= usize::MAX - BLOCK_CAP,
        ensures
            final(self).wf(),
            final(self)@ == (VecView {
                cap: old(self)@.cap + BLOCK_CAP as nat,
                ..old(self)@
            }),
    {
        let ghost before = *self;
        let mut grown: AtomicVec<T> = AtomicVec {
            blocks: Vec::new(),
            start: 0,
            first: self.first,
            reading: self.reading,
            len: 0,
            cap: 0,
            ref_count: self.ref_count,
        };
        let n: usize = self.blocks.len() + 1;
        while grown.blocks.len() < n
            invariant
                n * BLOCK_CAP <= usize::MAX,
                grown.blocks@.len() <= n,
                grown.whole(),
                grown.start == 0,
                grown.first == self.first,
                grown.reading == self.reading,
                grown.ref_count == self.ref_count,
                forall|p: int| 0 <= p < grown.cap ==> #[trigger] slot_at(grown.blocks@, p) is Empty,
            decreases n - grown.blocks@.len(),
        {
            let ghost so_far = grown;
            let block: Vec<Slot<T>> = Self::new_block();
            assert((so_far.blocks@.len() + 1) * BLOCK_CAP <= n * BLOCK_CAP) by (nonlinear_arith)
                requires
                    so_far.blocks@.len() + 1 <= n,
            ;
            grown.blocks.push(block);
            grown.cap = grown.cap + BLOCK_CAP;
            assert forall|p: int| 0 <= p < grown.cap implies #[trigger] slot_at(
                grown.blocks@,
                p,
            ) is Empty by {
                if p < so_far.cap {
                    assert(slot_at(so_far.blocks@, p) is Empty);
                }
            }
        }
        let len: usize = self.len;
        let mut i: usize = 0;
        while i < len
            invariant
                i <= len,
                len == before.len,
                before.wf(),
                self.whole(),
                self.start == before.start,
                self.cap == before.cap,
                forall|j: int|
                    i <= j < self.cap ==> slot_at(
                        self.blocks@,
                        #[trigger] ring(self.start as int, j, self.cap as int),
                    ) == slot_at(before.blocks@, ring(self.start as int, j, self.cap as int)),
                grown.whole(),
                grown.cap == before.cap + BLOCK_CAP,
                grown.start == 0,
                grown.first == before.first,
                grown.reading == before.reading,
                grown.ref_count == before.ref_count,
                forall|p: int|
                    i <= p < grown.cap ==> #[trigger] slot_at(grown.blocks@, p) is Empty,
                forall|p: int|
                    0 <= p < i ==> #[trigger] slot_at(grown.blocks@, p) == slot_at(
                        before.blocks@,
                        ring(before.start as int, p, before.cap as int),
                    ),
            decreases len - i,
        {
            let pos: usize = if i < self.cap - self.start {
                self.start + i
            } else {
                i - (self.cap - self.start)
            };
            assert(pos == ring(self.start as int, i as int, self.cap as int));
            let slot: Slot<T> = self.exchange(pos, Slot::Empty);
            grown.exchange(i, slot);
            i = i + 1;
        }
        grown.len = len;
        proof {
            assert forall|j: int| 0 <= j < grown.cap implies #[trigger] ring(
                0,
                j,
                grown.cap as int,
            ) == j by {}
            assert forall|j: int| 0 <= j < len implies #[trigger] grown@.turns[j]
                == before@.turns[j] by {
                assert(slot_at(grown.blocks@, j) == slot_at(
                    before.blocks@,
                    ring(before.start as int, j, before.cap as int),
                ));
            }
            assert(grown@.turns =~= before@.turns);
        }
        *self = grown;
    }

    /// Claims the next turn for writing and returns its ticket. A claim that
    /// fills the slots adds a block; there is room to count one more.
    pub fn claim(&mut self) -> (ticket: usize)
        requires
            old(self).wf(),
            old(self)@.grown_cap() <= usize::MAX,
        ensures
            final(self).wf(),
            ticket == old(self)@.ticket_of(old(self)@.turns.len() as int),
            final(self)@ == old(self)@.claimed(),
    {
        if self.len + 1 >= self.cap {
            self.add_block();
        }
        let ghost before = *self;
        let ticket: usize = self.first.wrapping_add(self.len);
        self.len = self.len + 1;
        proof {
            assert(self@.turns =~= before@.turns.push(Slot::Empty));
            assert forall|i: int| self.reading <= i < self.len implies (
            #[trigger] self@.turns[i]) !is Taken by {
                if i < before.len {
                    assert(before@.turns[i] !is Taken);
                }
            }
        }
        ticket
    }

    /// Publishes `value` in a turn that the caller has claimed for writing.
    pub fn publish(&mut self, ticket: usize, value: T)
        requires
            old(self).wf(),
            old(self)@.turn_of(ticket) < old(self)@.turns.len(),
            old(self)@.turns[old(self)@.turn_of(ticket)] is Empty,
        ensures
            final(self).wf(),
            final(self)@ == old(self)@.published(old(self)@.turn_of(ticket), value),
    {
        let i: usize = ticket.wrapping_sub(self.first);
        let _ = self.replace(i, Slot::Ready(value));
    }

    /// Adds a value at the end. A push that fills the slots adds a block; there
    /// is room to count one more.
    #[inline]
    pub fn push(&mut self, value: T)
        requires
            old(self).wf(),
            old(self)@.grown_cap() <= usize::MAX,
        ensures
            final(self).wf(),
            final(self)@ == old(self)@.pushed(value),
    {
        let ghost before = self@;
        let ticket: usize = self.claim();
        proof {
            law_ticket_names_its_turn(before, before.turns.len() as int);
            assert(before.claimed().published(before.turns.len() as int, value).turns
                =~= before.pushed(value).turns);
        }
        self.publish(ticket, value);
    }

    /// Claims the next turn for reading and returns its ticket, if there is one.
    pub fn claim_read(&mut self) -> (ticket: Option<usize>)
        requires
            old(self).wf(),
        ensures
            final(self).wf(),
            ticket == (if old(self)@.reading < old(self)@.turns.len() {
                Some(old(self)@.ticket_of(old(self)@.reading as int))
            } else {
                None
            }),
            final(self)@ == (if old(self)@.reading < old(self)@.turns.len() {
                old(self)@.read_claimed()
            } else {
                old(self)@
            }),
    {
        if self.is_empty() {
            return None;
        }
        let ghost before = *self;
        let ticket: usize = self.first.wrapping_add(self.reading);
        self.reading = self.reading + 1;
        proof {
            assert(self@.turns =~= before@.turns);
            assert forall|i: int| self.reading <= i < self.len implies (
            #[trigger] self@.turns[i]) !is Taken by {
                assert(before@.turns[i] !is Taken);
            }
        }
        Some(ticket)
    }

    /// Takes the value of a turn that the caller has claimed for reading, once it
    /// has been published; until then the caller has to wait.
    pub fn take(&mut self, ticket: usize) -> (value: Option<T>)
        requires
            old(self).wf(),
            old(self)@.turn_of(ticket) < old(self)@.reading,
            old(self)@.turns[old(self)@.turn_of(ticket)] !is Taken,
        ensures
            final(self).wf(),
            value == (match old(self)@.turns[old(self)@.turn_of(ticket)] {
                Slot::Ready(v) => Some(v),
                _ => None,
            }),
            final(self)@ == (if value is Some {
                old(self)@.taken(old(self)@.turn_of(ticket))
            } else {
                old(self)@
            }),
    {
        let i: usize = ticket.wrapping_sub(self.first);
        match self.look(i) {
            Slot::Ready(_) => {},
            _ => {
                return None;
            },
        }
        let slot: Slot<T> = self.replace(i, Slot::Taken);
        self.trim();
        match slot {
            Slot::Ready(value) => Some(value),
            _ => None,
        }
    }

    /// Gives the slots of the turns at the front that have been read free.
    fn trim(&mut self)
        requires
            old(self).laid_out(),
        ensures
            final(self).wf(),
            final(self)@ == old(self)@.trimmed(),
    {
        while self.len > 0
            invariant
                self.laid_out(),
                self@.trimmed() == old(self)@.trimmed(),
            ensures
                self.wf(),
                self@ == old(self)@.trimmed(),
            decreases self.len,
        {
            match self.look(0) {
                Slot::Taken => {},
                _ => {
                    break;
                },
            }
            self.advance();
        }
    }

    /// Gives the slot of the first turn free, which has been read.
    fn advance(&mut self)
        requires
            old(self).laid_out(),
            old(self).len > 0,
            old(self)@.turns[0] is Taken,
        ensures
            final(self).laid_out(),
            final(self).len == old(self).len - 1,
            final(self)@ == old(self)@.advanced(),
    {
        let ghost before = *self;
        let pos: usize = self.start;
        assert(pos == ring(before.start as int, 0, before.cap as int));
        assert(before.reading > 0) by {
            assert(before@.turns[0] is Taken);
        }
        let _ = self.exchange(pos, Slot::Empty);
        self.start = if pos + 1 < self.cap {
            pos + 1
        } else {
            0
        };
        self.first = self.first.wrapping_add(1);
        self.reading = self.reading - 1;
        self.len = self.len - 1;
        proof {
            let cap = before.cap as int;
            assert forall|j: int| 0 <= j < cap - 1 implies slot_at(
                self.blocks@,
                #[trigger] ring(self.start as int, j, cap),
            ) == slot_at(before.blocks@, ring(before.start as int, j + 1, cap)) by {
                let p = ring(self.start as int, j, cap);
                assert(p == ring(before.start as int, j + 1, cap));
                assert(p != pos);
            }
            assert forall|j: int| self.len <= j < cap implies slot_at(
                self.blocks@,
                #[trigger] ring(self.start as int, j, cap),
            ) is Empty by {
                if j < cap - 1 {
                    assert(slot_at(before.blocks@, ring(before.start as int, j + 1, cap)) is Empty);
                } else {
                    assert(ring(self.start as int, j, cap) == pos);
                }
            }
            assert(self@.turns =~= before@.turns.skip(1));
            assert forall|i: int| self.reading <= i < self.len implies (
            #[trigger] self@.turns[i]) !is Taken by {
                assert(before@.turns[i + 1] !is Taken);
            }
        }
    }

    /// Takes the first value. Nobody has claimed a turn for reading, and the
    /// first value has been published.
    #[inline]
    pub fn pop(&mut self) -> (value: Option<T>)
        requires
            old(self).wf(),
            old(self)@.reading == 0,
            old(self)@.turns.len() > 0 ==> old(self)@.turns[0] is Ready,
        ensures
            final(self).wf(),
            value == (if old(self)@.turns.len() > 0 {
                Some(old(self)@.turns[0]->Ready_0)
            } else {
                None
            }),
            final(self)@ == old(self)@.popped(),
    {
        let ghost before = self@;
        proof {
            self.lemma_wf_is_valid();
            law_ticket_names_its_turn(before, 0);
            if before.turns.len() > 0 {
                law_pop_is_claim_and_take(before);
            }
        }
        match self.claim_read() {
            Some(ticket) => self.take(ticket),
            None => None,
        }
    }

    /// The value `index` turns behind the first one that nobody has claimed for
    /// reading, which has been published.
    #[inline]
    pub fn get(&self, index: usize) -> (value: Option<&T>)
        requires
            self.wf(),
            index < self@.turns.len() - self@.reading ==> self@.turns[self@.reading
                + index] is Ready,
        ensures
            value == (if index < self@.turns.len() - self@.reading {
                Some(&self@.turns[self@.reading + index]->Ready_0)
            } else {
                None
            }),
    {
        if index >= self.len() {
            return None;
        }
        match self.look(self.reading + index) {
            Slot::Ready(value) => Some(value),
            _ => None,
        }
    }

    /// Takes every value of a settled queue out, in order; tickets start again
    /// at 0.
    #[inline]
    pub fn as_vec(&mut self) -> (out: Vec<T>)
        requires
            old(self).wf(),
            old(self)@.settled(),
        ensures
            final(self).wf(),
            out@ == old(self)@.items(),
            final(self)@ == (VecView { turns: Seq::empty(), first: 0, ..old(self)@ }),
    {
        let ghost all = self@.items();
        let mut out: Vec<T> = Vec::new();
        assert(out@ + self@.items() =~= all);
        loop
            invariant
                self.wf(),
                self@.settled(),
                out@ + self@.items() == all,
                self@.cap == old(self)@.cap,
                self@.refs == old(self)@.refs,
            ensures
                self.wf(),
                self@.cap == old(self)@.cap,
                self@.refs == old(self)@.refs,
                self@.reading == 0,
                self@.turns.len() == 0,
                out@ == all,
            decreases self@.turns.len(),
        {
            let ghost so_far = out@;
            let ghost left = self@;
            match self.pop() {
                Some(value) => {
                    out.push(value);
                    assert(self@.items() =~= left.items().skip(1));
                    assert(out@ + self@.items() =~= so_far + left.items());
                },
                None => {
                    assert(out@ =~= all);
                    break;
                },
            }
        }
        let ghost before = *self;
        self.start = 0;
        self.first = 0;
        proof {
            let cap = before.cap as int;
            assert forall|j: int| 0 <= j < cap implies slot_at(
                self.blocks@,
                #[trigger] ring(0, j, cap),
            ) is Empty by {
                let i = if j >= before.start {
                    j - before.start
                } else {
                    j + cap - before.start
                };
                assert(ring(before.start as int, i, cap) == j);
            }
            assert(self@.turns =~= Seq::empty());
        }
        out
    }

    /// Adds `n` values that `initializer` makes.
    fn fill<F: FnMut() -> T>(&mut self, n: usize, mut initializer: F)
        requires
            old(self).wf(),
            old(self)@.turns.len() == 0,
            old(self)@.reading == 0,
            n <= usize::MAX - 2 * BLOCK_CAP,
            call_requires(initializer, ()),
        ensures
            final(self).wf(),
            final(self)@.settled(),
            final(self)@.items().len() == n,
            forall|i: int|
                0 <= i < n ==> call_ensures(initializer, (), #[trigger] final(self)@.items()[i]),
            final(self)@.first == old(self)@.first,
            final(self)@.cap == cap_for(old(self)@.cap, n as nat),
            final(self)@.refs == old(self)@.refs,
    {
        proof {
            self.lemma_wf_is_valid();
        }
        let ghost made_by = initializer;
        let mut i: usize = 0;
        while i < n
            invariant
                i <= n,
                n <= usize::MAX - 2 * BLOCK_CAP,
                self.wf(),
                self@.settled(),
                self@.turns.len() == i,
                forall|j: int|
                    0 <= j < i ==> call_ensures(initializer, (), #[trigger] self@.items()[j]),
                old(self)@.cap % BLOCK_CAP as nat == 0,
                old(self)@.cap > 0,
                self@.first == old(self)@.first,
                self@.cap == cap_for(old(self)@.cap, i as nat),
                self@.refs == old(self)@.refs,
                initializer == made_by,
                call_requires(initializer, ()),
            decreases n - i,
        {
            proof {
                self.lemma_wf_is_valid();
            }
            let ghost before = self@;
            let value: T = initializer();
            self.push(value);
            assert(self@.items() =~= before.items().push(value));
            i = i + 1;
        }
    }

    /// A queue of `cap` values that `initializer` makes.
    pub fn init_with<F: FnMut() -> T>(cap: usize, initializer: F) -> (queue: Self)
        requires
            cap <= usize::MAX - 2 * BLOCK_CAP,
            call_requires(initializer, ()),
        ensures
            queue.wf(),
            queue@.settled(),
            queue@.items().len() == cap,
            forall|i: int|
                0 <= i < cap ==> call_ensures(initializer, (), #[trigger] queue@.items()[i]),
            queue@.first == 0,
            queue@.cap == cap_for(BLOCK_CAP as nat, cap as nat),
            queue@.refs == 1,
    {
        let mut queue: AtomicVec<T> = Self::new();
        queue.fill(cap, initializer);
        queue
    }

    /// Drops the values of a settled queue and starts again with `new_cap` values
    /// that `initializer` makes; returns how many those are.
    #[inline]
    pub fn reset_with<F: FnMut() -> T>(&mut self, new_cap: usize, initializer: F) -> (n: usize)
        requires
            old(self).wf(),
            old(self)@.settled(),
            new_cap <= usize::MAX - 2 * BLOCK_CAP,
            call_requires(initializer, ()),
        ensures
            final(self).wf(),
            n == new_cap,
            final(self)@.settled(),
            final(self)@.items().len() == new_cap,
            forall|i: int|
                0 <= i < new_cap ==> call_ensures(
                    initializer,
                    (),
                    #[trigger] final(self)@.items()[i],
                ),
            final(self)@.first == 0,
            final(self)@.cap == cap_for(old(self)@.cap, new_cap as nat),
            final(self)@.refs == old(self)@.refs,
    {
        self.as_vec();
        self.fill(new_cap, initializer);
        new_cap
    }

    /// Pushes `items`, in order, into a settled queue.
    fn append(&mut self, items: Vec<T>)
        requires
            old(self).wf(),
            old(self)@.turns.len() == 0,
            old(self)@.reading == 0,
            items@.len() <= usize::MAX - 2 * BLOCK_CAP,
        ensures
            final(self).wf(),
            final(self)@.settled(),
            final(self)@.items() == items@,
            final(self)@.first == old(self)@.first,
            final(self)@.cap == cap_for(old(self)@.cap, items@.len()),
            final(self)@.refs == old(self)@.refs,
    {
        proof {
            self.lemma_wf_is_valid();
        }
        assert(self@.items() =~= items@.take(0));
        for item in iter: items
            invariant
                items@.len() <= usize::MAX - 2 * BLOCK_CAP,
                iter.seq() == items@,
                self.wf(),
                self@.settled(),
                self@.items() == items@.take(iter.index()),
                old(self)@.cap % BLOCK_CAP as nat == 0,
                old(self)@.cap > 0,
                self@.first == old(self)@.first,
                self@.cap == cap_for(old(self)@.cap, iter.index() as nat),
                self@.refs == old(self)@.refs,
        {
            proof {
                self.lemma_wf_is_valid();
            }
            let ghost before = self@;
            assert(before.items().len() == before.turns.len());
            self.push(item);
            assert(self@.items() =~= before.items().push(item));
            assert(self@.items() =~= items@.take(iter.index() + 1));
        }
        assert(items@.take(items@.len() as int) =~= items@);
    }

    /// A queue of `items`.
    pub fn from_items(items: Vec<T>) -> (queue: Self)
        requires
            items@.len() <= usize::MAX - 2 * BLOCK_CAP,
        ensures
            queue.wf(),
            queue@.settled(),
            queue@.items() == items@,
            queue@.first == 0,
            queue@.cap == cap_for(BLOCK_CAP as nat, items@.len()),
            queue@.refs == 1,
    {
        let mut queue: AtomicVec<T> = Self::new();
        queue.append(items);
        queue
    }

    /// Drops the values of a settled queue and starts again with `values`; returns
    /// how many those are.
    pub fn reset_from(&mut self, values: Vec<T>) -> (n: usize)
        requires
            old(self).wf(),
            old(self)@.settled(),
            values@.len() <= usize::MAX - 2 * BLOCK_CAP,
        ensures
            final(self).wf(),
            n == values@.len(),
            final(self)@.settled(),
            final(self)@.items() == values@,
            final(self)@.first == 0,
            final(self)@.cap == cap_for(old(self)@.cap, values@.len()),
            final(self)@.refs == old(self)@.refs,
    {
        let n: usize = values.len();
        self.as_vec();
        self.append(values);
        n
    }

    /// One more handle shares the queue.
    pub fn clone_ref(&mut self)
        requires
            old(self).wf(),
            old(self)@.refs < usize::MAX,
        ensures
            final(self).wf(),
            final(self)@ == (VecView { refs: old(self)@.refs + 1, ..old(self)@ }),
    {
        self.ref_count = self.ref_count + 1;
    }

    /// Gives one handle up; tells whether it was the last one, so that the queue
    /// is to be freed with its values.
    pub fn drop_ref(&mut self) -> (last: bool)
        requires
            old(self).wf(),
            old(self)@.refs > 0,
        ensures
            final(self).wf(),
            final(self)@ == (VecView { refs: (old(self)@.refs - 1) as nat, ..old(self)@ }),
            last == (old(self)@.refs == 1),
    {
        self.ref_count = self.ref_count - 1;
        self.ref_count == 0
    }

    /// What a `Debug` print of the queue shows: the number of values and the
    /// number of slots.
    pub fn info(&self) -> (info: (usize, usize))
        requires
            self.wf(),
        ensures
            info.0 == self@.turns.len() - self@.reading,
            info.1 == self@.cap,
    {
        (self.len(), self.capacity())
    }
}

impl<T> Default for AtomicVec<T> {
    fn default() -> (queue: Self)
        ensures
            queue.wf(),
            queue@ == VecView::<T>::unused(),
    {
        Self::new()
    }
}

/// The number of slots of a queue of `cap` slots once it holds `n` values: the
/// least number of blocks with a slot to spare, and not fewer than before.
pub open spec fn cap_for(cap: nat, n: nat) -> nat {
    if n < cap {
        cap
    } else {
        (n / BLOCK_CAP as nat + 1) * BLOCK_CAP as nat
    }
}

/// The ticket of a turn names that turn, and goes on naming it when turns before
/// it have been given free.
pub proof fn law_ticket_names_its_turn<T>(queue: VecView<T>, i: int)
    requires
        0 <= i <= usize::MAX,
    ensures
        queue.turn_of(queue.ticket_of(i)) == i,
        i > 0 ==> queue.advanced().ticket_of(i - 1) == queue.ticket_of(i),
{
}

/// A pop is a claim for reading and the taking of its value.
pub proof fn law_pop_is_claim_and_take<T>(queue: VecView<T>)
    requires
        queue.valid(),
        queue.reading == 0,
        queue.turns.len() > 0,
        queue.turns[0] is Ready,
    ensures
        queue.read_claimed().taken(0) == queue.popped(),
        queue.popped().valid(),
{
    let marked = queue.read_claimed().marked(0);
    assert(marked.turns.skip(1) =~= queue.turns.skip(1));
    assert(marked.advanced() == queue.popped());
    assert(marked.advanced().trimmed() == marked.advanced());
}

/// A value that is pushed is popped after those that were there, and reading by
/// index meets the values in the order in which they will be popped.
pub proof fn law_first_in_first_out<T>(queue: VecView<T>, value: T)
    requires
        queue.settled(),
    ensures
        queue.pushed(value).settled(),
        queue.pushed(value).items() == queue.items().push(value),
        queue.popped().settled(),
        queue.turns.len() > 0 ==> queue.popped().items() == queue.items().skip(1),
        queue.turns.len() > 0 ==> queue.pushed(value).popped().items()
            == queue.popped().items().push(value),
        queue.turns.len() == 0 ==> queue.pushed(value).popped().items() == queue.items(),
{
    assert(queue.pushed(value).items() =~= queue.items().push(value));
    if queue.turns.len() > 0 {
        assert(queue.popped().items() =~= queue.items().skip(1));
        assert(queue.pushed(value).popped().items() =~= queue.popped().items().push(value));
    } else {
        assert(queue.pushed(value).popped().items() =~= queue.items());
    }
}

/// What threads that are between a claim and what it was made for do to the
/// turns of others: publishing or claiming leaves every other turn as it is.
pub proof fn law_other_turns_stay<T>(queue: VecView<T>, i: int, value: T, other: int)
    requires
        queue.valid(),
        0 <= i < queue.turns.len(),
        queue.turns[i] is Empty,
        0 <= other < queue.turns.len(),
        other != i,
    ensures
        queue.published(i, value).valid(),
        queue.published(i, value).turns[i] == Slot::Ready(value),
        queue.published(i, value).turns[other] == queue.turns[other],
        queue.claimed().valid(),
        queue.claimed().turns[other] == queue.turns[other],
        queue.reading < queue.turns.len() ==> queue.read_claimed().valid(),
{
}

/// Giving the front free keeps every turn that has not been read, under its
/// ticket.
proof fn lemma_trimming_keeps_turns<T>(queue: VecView<T>, j: int)
    requires
        queue.turns.len() < queue.cap <= usize::MAX,
        queue.cap % BLOCK_CAP as nat == 0,
        queue.reading <= queue.turns.len(),
        forall|i: int| queue.reading <= i < queue.turns.len() ==> queue.turns[i] !is Taken,
        0 <= j < queue.turns.len(),
        queue.turns[j] !is Taken,
    ensures
        queue.trimmed().valid(),
        queue.trimmed().turn_of(queue.ticket_of(j)) < queue.trimmed().turns.len(),
        queue.trimmed().turns[queue.trimmed().turn_of(queue.ticket_of(j))] == queue.turns[j],
        queue.trimmed().turn_of(queue.ticket_of(j)) < queue.trimmed().reading <==> j
            < queue.reading,
    decreases queue.turns.len(),
{
    law_ticket_names_its_turn(queue, j);
    if queue.turns[0] is Taken {
        let next = queue.advanced();
        assert forall|i: int| next.reading <= i < next.turns.len() implies next.turns[i] !is Taken by {
            assert(queue.turns[i + 1] !is Taken);
        }
        assert(next.turns[j - 1] == queue.turns[j]);
        lemma_trimming_keeps_turns(next, j - 1);
    }
}

/// Taking the value of one turn keeps every other turn that has not been read,
/// under its ticket.
pub proof fn law_take_keeps_other_turns<T>(queue: VecView<T>, i: int, other: int)
    requires
        queue.valid(),
        queue.cap <= usize::MAX,
        0 <= i < queue.reading,
        0 <= other < queue.turns.len(),
        other != i,
        queue.turns[other] !is Taken,
    ensures
        queue.taken(i).valid(),
        queue.taken(i).turn_of(queue.ticket_of(other)) < queue.taken(i).turns.len(),
        queue.taken(i).turns[queue.taken(i).turn_of(queue.ticket_of(other))]
            == queue.turns[other],
        queue.taken(i).turn_of(queue.ticket_of(other)) < queue.taken(i).reading <==> other
            < queue.reading,
{
    lemma_trimming_keeps_turns(queue.marked(i), other);
}

/// The queue never runs out of slots.
pub proof fn law_there_is_always_a_free_slot<T>(queue: VecView<T>, value: T)
    requires
        queue.valid(),
    ensures
        queue.claimed().turns.len() < queue.claimed().cap,
        queue.pushed(value).valid(),
{
}

/// A queue grows by whole blocks, and only when a claim would leave no free slot;
/// so after `n` values its slots are the fewest blocks that leave one free, and
/// not fewer than before.
pub proof fn law_blocks_are_added_when_needed<T>(queue: VecView<T>, value: T, cap: nat, n: nat)
    requires
        queue.valid(),
    ensures
        queue.turns.len() + 1 < queue.cap ==> queue.claimed().cap == queue.cap
            && queue.pushed(value).cap == queue.cap,
        queue.turns.len() + 1 >= queue.cap ==> queue.claimed().cap == queue.cap + BLOCK_CAP
            && queue.pushed(value).cap == queue.cap + BLOCK_CAP,
        cap > 0 && cap % BLOCK_CAP as nat == 0 ==> {
            &&& n < cap_for(cap, n)
            &&& cap <= cap_for(cap, n)
            &&& cap_for(cap, n) % BLOCK_CAP as nat == 0
            &&& cap_for(cap, n) > cap ==> cap_for(cap, n) <= n + BLOCK_CAP
            &&& queue.turns.len() == n && queue.cap == cap_for(cap, n) ==> queue.pushed(
                value,
            ).cap == cap_for(cap, n + 1)
        },
{
}

/// Turns are claimed in order: a claim for writing gets the one behind the last,
/// which is empty until its value is published, and a claim for reading the first
/// one that nobody has claimed; neither touches what other turns hold.
pub proof fn law_turns_are_claimed_in_order<T>(queue: VecView<T>, value: T, i: int)
    requires
        queue.valid(),
    ensures
        queue.claimed().turns.len() == queue.turns.len() + 1,
        queue.claimed().turns.last() is Empty,
        queue.pushed(value).turns.len() == queue.turns.len() + 1,
        queue.pushed(value).turns.last() == Slot::Ready(value),
        0 <= i < queue.turns.len() ==> queue.claimed().turns[i] == queue.turns[i]
            && queue.pushed(value).turns[i] == queue.turns[i],
        queue.claimed().reading == queue.reading,
        queue.claimed().first == queue.first,
        queue.read_claimed().reading == queue.reading + 1,
        queue.read_claimed().turns == queue.turns,
        queue.read_claimed().first == queue.first,
        queue.read_claimed().cap == queue.cap,
        queue.ticket_of(0) == queue.first,
        queue.claimed().refs == queue.refs && queue.read_claimed().refs == queue.refs
            && queue.pushed(value).refs == queue.refs,
{
}

/// Tickets are handed out one after the other, and start again after the last
/// machine word.
pub proof fn law_tickets_follow_each_other<T>(queue: VecView<T>, i: int)
    requires
        0 <= i < usize::MAX,
    ensures
        queue.ticket_of(i) < usize::MAX ==> queue.ticket_of(i + 1) == queue.ticket_of(i) + 1,
        queue.ticket_of(i) == usize::MAX ==> queue.ticket_of(i + 1) == 0,
{
}

/// Taking a value that is not the first one in use only marks its turn; taking the
/// first one gives its slot free and with it those behind it that have been read.
pub proof fn law_slots_are_given_free_in_order<T>(queue: VecView<T>, i: int)
    requires
        queue.valid(),
        0 <= i < queue.reading,
    ensures
        i > 0 ==> queue.taken(i).turns.len() == queue.turns.len() && queue.taken(i).turns[i] is Taken
            && queue.taken(i).reading == queue.reading && queue.taken(i).first == queue.first,
        i == 0 ==> queue.taken(i).turns.len() < queue.turns.len(),
        i == 0 && (queue.turns.len() == 1 || !(queue.turns[1] is Taken)) ==> queue.taken(i)
            == queue.advanced(),
        queue.taken(i).cap == queue.cap,
        queue.taken(i).refs == queue.refs,
{
    let marked = queue.marked(i);
    if i == 0 {
        lemma_trimming_only_shortens(marked.advanced());
        assert(marked.turns.skip(1) =~= queue.turns.skip(1));
        if queue.turns.len() > 1 {
            assert(marked.advanced().turns[0] == queue.turns[1]);
        }
    }
}

/// Giving slots free never adds a turn, and keeps the slots and the handles.
proof fn lemma_trimming_only_shortens<T>(queue: VecView<T>)
    ensures
        queue.trimmed().turns.len() <= queue.turns.len(),
        queue.trimmed().cap == queue.cap,
        queue.trimmed().refs == queue.refs,
    decreases queue.turns.len(),
{
    if queue.turns.len() > 0 && queue.turns[0] is Taken {
        lemma_trimming_only_shortens(queue.advanced());
    }
}

/// A new queue has one block, no turn in use and one handle, and hands ticket 0 out
/// first.
pub proof fn law_a_new_queue_is_empty<T>()
    ensures
        VecView::<T>::unused().turns.len() == 0,
        VecView::<T>::unused().reading == 0,
        VecView::<T>::unused().first == 0,
        VecView::<T>::unused().cap == BLOCK_CAP,
        VecView::<T>::unused().refs == 1,
        VecView::<T>::unused().valid(),
        VecView::<T>::unused().settled(),
{
}

/// In a settled queue every turn holds a value that nobody has claimed, and the
/// values are those of the turns, in order.
pub proof fn law_items_are_those_of_the_turns<T>(queue: VecView<T>, i: int)
    ensures
        queue.settled() <==> queue.reading == 0 && forall|j: int|
            0 <= j < queue.turns.len() ==> queue.turns[j] is Ready,
        queue.items().len() == queue.turns.len(),
        queue.settled() && 0 <= i < queue.turns.len() ==> queue.turns[i] == Slot::Ready(
            queue.items()[i],
        ),
        queue.turns.len() == 0 ==> queue.popped() == queue,
        queue.turns.len() > 0 && queue.reading == 0 ==> queue.popped().turns
            == queue.turns.subrange(1, queue.turns.len() as int) && queue.popped().reading == 0
            && queue.popped().cap == queue.cap && queue.popped().refs == queue.refs,
{
    if queue.turns.len() > 0 && queue.reading == 0 {
        assert(queue.popped().turns =~= queue.turns.subrange(1, queue.turns.len() as int));
    }
}

/// Trimming gives exactly the turns free at the front that have been read.
proof fn lemma_trimming_frees_what_was_read<T>(queue: VecView<T>, n: nat)
    requires
        n <= queue.turns.len(),
        n <= queue.reading,
        n <= usize::MAX,
        forall|j: int| 0 <= j < n ==> (#[trigger] queue.turns[j]) is Taken,
        n < queue.turns.len() ==> !(queue.turns[n as int] is Taken),
    ensures
        queue.trimmed().turns == queue.turns.skip(n as int),
        queue.trimmed().first == queue.first.wrapping_add(n as usize),
        queue.trimmed().reading == queue.reading - n,
    decreases n,
{
    if n == 0 {
        assert(queue.turns.skip(0) =~= queue.turns);
    } else {
        let next = queue.advanced();
        assert forall|j: int| 0 <= j < n - 1 implies (#[trigger] next.turns[j]) is Taken by {
            assert(queue.turns[j + 1] is Taken);
        }
        lemma_trimming_frees_what_was_read(next, (n - 1) as nat);
        assert(queue.turns[0] is Taken);
        assert(next.turns.skip(n - 1) =~= queue.turns.skip(n as int));
    }
}

/// Taking the first turn in use gives free its slot and those of exactly the `n`
/// turns behind it that have been read: the next turn in use has the ticket that
/// follows theirs, and as many fewer are claimed for reading.
pub proof fn law_taking_the_first_frees_what_was_read<T>(queue: VecView<T>, n: nat)
    requires
        queue.valid(),
        queue.cap <= usize::MAX,
        n < queue.reading,
        forall|j: int| 1 <= j <= n ==> (#[trigger] queue.turns[j]) is Taken,
        n + 1 < queue.turns.len() ==> !(queue.turns[n as int + 1] is Taken),
    ensures
        queue.taken(0).turns == queue.turns.subrange(n as int + 1, queue.turns.len() as int),
        queue.taken(0).first == queue.first.wrapping_add((n + 1) as usize),
        queue.taken(0).reading == queue.reading - n - 1,
        queue.taken(0).turns.len() > 0 ==> !(queue.taken(0).turns[0] is Taken),
{
    let marked = queue.marked(0);
    assert forall|j: int| 0 <= j < n + 1 implies (#[trigger] marked.turns[j]) is Taken by {
        if j > 0 {
            assert(queue.turns[j] is Taken);
        }
    }
    lemma_trimming_frees_what_was_read(marked, n + 1);
    assert(marked.turns.skip(n as int + 1) =~= queue.turns.subrange(n as int + 1, queue.turns.len() as int));
}

/// A push that nobody disturbs is a claim and a publication in the turn behind the
/// others, and changes neither the first ticket nor what is claimed for reading; a
/// pop that nobody disturbs moves the first ticket on by one.
pub proof fn law_undisturbed_calls_are_their_steps<T>(queue: VecView<T>, value: T)
    requires
        queue.valid(),
    ensures
        queue.pushed(value) == queue.claimed().published(queue.turns.len() as int, value),
        queue.pushed(value).turns == queue.turns.push(Slot::Ready(value)),
        queue.pushed(value).first == queue.first,
        queue.pushed(value).reading == queue.reading,
        queue.pushed(value).refs == queue.refs,
        queue.turns.len() > 0 && queue.first < usize::MAX ==> queue.popped().first == queue.first
            + 1,
        queue.turns.len() > 0 && queue.first == usize::MAX ==> queue.popped().first == 0,
{
    assert(queue.claimed().published(queue.turns.len() as int, value).turns
        =~= queue.turns.push(Slot::Ready(value)));
}

} // verus!
