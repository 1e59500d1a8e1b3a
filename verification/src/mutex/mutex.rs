//! A futex-based mutex with exclusive and shared mode.
//!
//! [`Mutex`] holds the words that the threads share. An operation that may have
//! to wait is a machine ([`ExclusiveLocker`], [`SharedLocker`]): it asks for one
//! atomic operation on the words at a time and goes on with the reply, so that
//! the steps of several threads can interleave in any order.
//! [`Mutex::perform`] is what each operation does to the words.
use crate::primitives::attempt::Attempt;
use crate::primitives::backoff;
use crate::primitives::backoff::{Backoff, Pause};
use vstd::prelude::*;

verus! {

/// Nobody holds the lock and nobody sleeps.
pub const UNLOCKED: usize = 0;

/// Readers sleep until a writer leaves.
pub const READERS_PARKED: usize = 1;

/// Writers sleep until the lock is free.
pub const WRITERS_PARKED: usize = 2;

/// What one reader adds to the state word.
pub const ONE_READER: usize = 4;

/// The reader bits, all of which are set while a writer holds the lock.
pub const ONE_WRITER: usize = !(READERS_PARKED | WRITERS_PARKED);

/// The state word as callers see it.
pub struct WordView {
    /// A writer holds the lock.
    pub writer: bool,
    /// Readers that hold the lock.
    pub readers: nat,
    /// Readers sleep.
    pub readers_parked: bool,
    /// Writers sleep.
    pub writers_parked: bool,
}

/// The value of the reader bits that stands for a writer.
pub open spec fn writer_mark() -> int {
    (usize::MAX / 4) as int
}

/// What a state word says.
pub open spec fn decode(word: usize) -> WordView {
    WordView {
        writer: word / 4 == writer_mark(),
        readers: if word / 4 == writer_mark() { 0 } else { (word / 4) as nat },
        readers_parked: word % 2 == 1,
        writers_parked: (word / 2) % 2 == 1,
    }
}

impl WordView {
    /// Anybody holds the lock.
    pub open spec fn held(self) -> bool {
        self.writer || self.readers > 0
    }

    /// Nobody holds the lock and nobody sleeps.
    pub open spec fn idle(self) -> bool {
        !self.held() && !self.readers_parked && !self.writers_parked
    }
}

/// The bit operations on a state word, as arithmetic.
proof fn lemma_bits(word: usize)
    ensures
        word & READERS_PARKED == word % 2,
        word & WRITERS_PARKED == 2 * ((word / 2) % 2),
        word & ONE_WRITER == 4 * (word / 4),
        word & ONE_WRITER == 0 <==> word / 4 == 0,
        word & ONE_WRITER == ONE_WRITER <==> word / 4 == writer_mark(),
        ONE_WRITER == 4 * writer_mark(),
        ONE_WRITER == usize::MAX - 3,
{
    assert(word & 1 == word % 2) by (bit_vector);
    assert(word & 2 == 2 * ((word / 2) % 2)) by (bit_vector);
    assert(word & !3usize == 4 * (word / 4)) by (bit_vector);
    assert(!(1usize | 2usize) == !3usize) by (bit_vector);
    let max = usize::MAX;
    assert(max <= !0usize && !3usize == !0usize - 3) by (bit_vector);
}

/// Setting bits of a state word, as arithmetic.
proof fn lemma_set_bits(word: usize)
    ensures
        word | READERS_PARKED == word - word % 2 + 1,
        word | WRITERS_PARKED == word + (if (word / 2) % 2 == 1 {
            0int
        } else {
            2
        }),
        word | ONE_WRITER == ONE_WRITER + word % 4,
        word | ONE_WRITER | UNLOCKED == ONE_WRITER + word % 4,
        word | ONE_WRITER | WRITERS_PARKED == ONE_WRITER + word % 2 + 2,
        word & !ONE_WRITER == word % 4,
        word & !((word & ONE_WRITER) as usize) == word % 4,
{
    assert(word | 1 == word - word % 2 + 1) by (bit_vector);
    assert((word | 2) == word + (if (word / 2) % 2 == 1 { 0int } else { 2int })) by (bit_vector);
    assert(word | !3usize == !3usize + word % 4) by (bit_vector);
    assert(word | !3usize | 0 == !3usize + word % 4) by (bit_vector);
    assert(word | !3usize | 2 == !3usize + word % 2 + 2) by (bit_vector);
    assert(word & !!3usize == word % 4) by (bit_vector);
    assert(word & !(word & !3usize) == word % 4) by (bit_vector);
    assert(!(1usize | 2usize) == !3usize) by (bit_vector);
}

/// Whether a writer holds the lock of which `state` is the word.
#[inline]
pub fn is_writer_locked(state: usize) -> (locked: bool)
    ensures
        locked == decode(state).writer,
{
    proof {
        lemma_bits(state);
    }
    (state & ONE_WRITER) == ONE_WRITER
}

/// The number of readers that hold the lock of which `state` is the word.
#[inline]
pub fn readers_count(state: usize) -> (readers: usize)
    ensures
        readers == decode(state).readers,
{
    proof {
        lemma_bits(state);
    }
    if is_writer_locked(state) {
        0
    } else {
        assert((state & ONE_WRITER) >> 2 == (state & ONE_WRITER) / 4) by (bit_vector);
        (state & ONE_WRITER) >> 2
    }
}

/// A word that the threads share.
#[derive(Debug, Clone, Copy, PartialEq, Eq, Structural)]
pub enum Word {
    /// The state word.
    State,
    /// The word that sleeping readers watch.
    ReadersFutex,
    /// The word that sleeping writers watch.
    WritersFutex,
}

/// One thing that a locker wants done.
#[derive(Debug, Clone, Copy, PartialEq, Eq, Structural)]
pub enum MutexOp {
    /// Read a word.
    Load(Word),
    /// Replace the state word, if it is `current`, by `new`.
    CompareExchange { current: usize, new: usize },
    /// Wait as told.
    Rest(Pause),
    /// Sleep while the word is `key`, or wake early for no reason.
    Sleep { word: Word, key: usize },
    /// Nothing: the locker holds the lock.
    Finished,
}

/// What came of it.
#[derive(Debug, Clone, Copy, PartialEq, Eq, Structural)]
pub enum MutexReply {
    /// The word that was read.
    Value(usize),
    /// The state word was replaced.
    Exchanged,
    /// The state word was not replaced; this is what it was.
    NotExchanged(usize),
    /// The wait or the sleep is over.
    Resumed,
}

/// `reply` can come of `op`.
pub open spec fn answers(op: MutexOp, reply: MutexReply) -> bool {
    match op {
        MutexOp::Load(_) => reply is Value,
        MutexOp::CompareExchange { .. } => reply is Exchanged || reply is NotExchanged,
        MutexOp::Rest(_) => reply is Resumed,
        MutexOp::Sleep { .. } => reply is Resumed,
        MutexOp::Finished => false,
    }
}

/// `op` turns `before` into `after` and is answered `reply`. A replacement of
/// the state word may fail without a reason, as long as it is not done.
pub open spec fn atomic_step(
    before: MutexView,
    op: MutexOp,
    reply: MutexReply,
    after: MutexView,
) -> bool {
    match op {
        MutexOp::Load(Word::State) => after == before && reply == MutexReply::Value(before.word),
        MutexOp::Load(Word::ReadersFutex) => after == before && reply == MutexReply::Value(
            before.readers_futex,
        ),
        MutexOp::Load(Word::WritersFutex) => after == before && reply == MutexReply::Value(
            before.writers_futex,
        ),
        MutexOp::CompareExchange { current, new } => {
            ||| reply is Exchanged && before.word == current && after == (MutexView {
                word: new,
                ..before
            })
            ||| reply == MutexReply::NotExchanged(before.word) && after == before
        },
        MutexOp::Rest(_) => after == before && reply is Resumed,
        MutexOp::Sleep { .. } => after == before && reply is Resumed,
        MutexOp::Finished => false,
    }
}

/// Where a locker stands.
#[derive(Debug, Clone, Copy, PartialEq, Eq, Structural)]
pub enum LockerAt {
    /// About to read the state word.
    Reading,
    /// About to take the lock.
    Taking,
    /// About to wait before it looks again.
    Resting(Pause),
    /// About to note in the state word that it sleeps.
    Parking,
    /// About to check whether it still has to sleep.
    Checking,
    /// About to read the word that it watches in its sleep.
    Watching,
    /// About to sleep.
    Sleeping(usize),
    /// Holds the lock.
    Holding,
}

/// A thread that takes the lock exclusively under contention.
pub struct ExclusiveLocker {
    at: LockerAt,
    state: usize,
    acquire_with: usize,
    backoff: Backoff,
}

/// An exclusive locker as callers see it.
pub struct LockerView {
    pub at: LockerAt,
    /// The state word that the locker goes by.
    pub state: usize,
    /// Whether the locker leaves the mark of sleeping writers when it takes the
    /// lock, because it has slept itself.
    pub slept: bool,
    /// The step of the locker's backoff.
    pub step: u32,
}

impl LockerView {
    /// The locker decides by the state word `state`: it takes a free lock,
    /// rests while its backoff is not completed, and then sleeps, which needs a
    /// mark in the state word unless there is one.
    pub open spec fn decide_exclusive(self, state: usize) -> LockerView {
        let now = LockerView { state, ..self };
        if !decode(state).held() {
            LockerView { at: LockerAt::Taking, ..now }
        } else if decode(state).writers_parked {
            LockerView { at: LockerAt::Checking, ..now }
        } else if self.step <= backoff::YIELD_LIMIT {
            LockerView {
                at: LockerAt::Resting(
                    if self.step <= backoff::SPIN_LIMIT {
                        Pause::Spin(backoff::spin_hints(self.step))
                    } else {
                        Pause::Yield
                    },
                ),
                step: (self.step + 1) as u32,
                ..now
            }
        } else {
            LockerView { at: LockerAt::Parking, ..now }
        }
    }

    /// The exclusive locker after `reply`.
    pub open spec fn next_exclusive(self, reply: MutexReply) -> LockerView {
        match (self.at, reply) {
            (LockerAt::Reading, MutexReply::Value(v)) => self.decide_exclusive(v),
            (LockerAt::Taking, MutexReply::Exchanged) => LockerView {
                at: LockerAt::Holding,
                ..self
            },
            (LockerAt::Taking, MutexReply::NotExchanged(v)) => self.decide_exclusive(v),
            (LockerAt::Resting(_), _) => self.decide_exclusive(self.state),
            (LockerAt::Parking, MutexReply::Exchanged) => LockerView {
                at: LockerAt::Checking,
                ..self
            },
            (LockerAt::Parking, MutexReply::NotExchanged(v)) => self.decide_exclusive(v),
            (LockerAt::Checking, MutexReply::Value(v)) => if !decode(v).held() || !decode(
                v,
            ).writers_parked {
                LockerView { at: LockerAt::Reading, slept: true, step: 0, ..self }
            } else {
                LockerView { at: LockerAt::Watching, ..self }
            },
            (LockerAt::Watching, MutexReply::Value(v)) => LockerView {
                at: LockerAt::Sleeping(v),
                ..self
            },
            (LockerAt::Sleeping(_), _) => LockerView { at: LockerAt::Checking, ..self },
            _ => self,
        }
    }

    /// What the exclusive locker wants done.
    pub open spec fn op_exclusive(self) -> MutexOp {
        match self.at {
            LockerAt::Reading => MutexOp::Load(Word::State),
            LockerAt::Taking => MutexOp::CompareExchange {
                current: self.state,
                new: self.state | ONE_WRITER | (if self.slept { WRITERS_PARKED } else { UNLOCKED }),
            },
            LockerAt::Resting(p) => MutexOp::Rest(p),
            LockerAt::Parking => MutexOp::CompareExchange {
                current: self.state,
                new: self.state | WRITERS_PARKED,
            },
            LockerAt::Checking => MutexOp::Load(Word::State),
            LockerAt::Watching => MutexOp::Load(Word::WritersFutex),
            LockerAt::Sleeping(key) => MutexOp::Sleep { word: Word::WritersFutex, key },
            LockerAt::Holding => MutexOp::Finished,
        }
    }

    /// An exclusive locker only takes a lock that nobody holds by the word that
    /// it goes by, and only parks at one that somebody holds.
    pub open spec fn sound_exclusive(self) -> bool {
        &&& self.at is Taking ==> !decode(self.state).held()
        &&& self.at is Parking ==> decode(self.state).held() && !decode(
            self.state,
        ).writers_parked
        &&& self.step <= backoff::YIELD_LIMIT + 1
    }
}

impl View for ExclusiveLocker {
    type V = LockerView;

    closed spec fn view(&self) -> LockerView {
        LockerView {
            at: self.at,
            state: self.state,
            slept: self.acquire_with == WRITERS_PARKED,
            step: self.backoff@,
        }
    }
}

impl ExclusiveLocker {
    /// The locker is in order.
    pub closed spec fn wf(&self) -> bool {
        &&& self.acquire_with == UNLOCKED || self.acquire_with == WRITERS_PARKED
        &&& self.backoff.wf()
        &&& self@.sound_exclusive()
    }

    /// A locker that has not looked at the lock yet.
    pub fn start() -> (locker: Self)
        ensures
            locker.wf(),
            locker@ == (LockerView { at: LockerAt::Reading, state: 0, slept: false, step: 0 }),
    {
        ExclusiveLocker {
            at: LockerAt::Reading,
            state: 0,
            acquire_with: UNLOCKED,
            backoff: Backoff::new(),
        }
    }

    /// A locker that wakes from its sleep.
    pub fn woken() -> (locker: Self)
        ensures
            locker.wf(),
            locker@ == (LockerView { at: LockerAt::Checking, state: 0, slept: false, step: 0 }),
    {
        ExclusiveLocker {
            at: LockerAt::Checking,
            state: 0,
            acquire_with: UNLOCKED,
            backoff: Backoff::new(),
        }
    }

    /// What the locker wants done.
    pub fn op(&self) -> (op: MutexOp)
        requires
            self.wf(),
        ensures
            op == self@.op_exclusive(),
    {
        match self.at {
            LockerAt::Reading => MutexOp::Load(Word::State),
            LockerAt::Taking => MutexOp::CompareExchange {
                current: self.state,
                new: self.state | ONE_WRITER | self.acquire_with,
            },
            LockerAt::Resting(p) => MutexOp::Rest(p),
            LockerAt::Parking => MutexOp::CompareExchange {
                current: self.state,
                new: self.state | WRITERS_PARKED,
            },
            LockerAt::Checking => MutexOp::Load(Word::State),
            LockerAt::Watching => MutexOp::Load(Word::WritersFutex),
            LockerAt::Sleeping(key) => MutexOp::Sleep { word: Word::WritersFutex, key },
            LockerAt::Holding => MutexOp::Finished,
        }
    }

    /// The locker decides by the state word `state`.
    fn decide(&mut self, state: usize)
        requires
            old(self).wf(),
        ensures
            final(self).wf(),
            final(self)@ == old(self)@.decide_exclusive(state),
    {
        proof {
            lemma_bits(state);
        }
        self.state = state;
        if state & ONE_WRITER == 0 {
            self.at = LockerAt::Taking;
        } else if state & WRITERS_PARKED == 0 {
            if !self.backoff.is_completed() {
                let pause: Pause = self.backoff.snooze();
                self.at = LockerAt::Resting(pause);
            } else {
                self.at = LockerAt::Parking;
            }
        } else {
            self.at = LockerAt::Checking;
        }
    }

    /// The locker goes on with what came of its last operation.
    pub fn resume(&mut self, reply: MutexReply)
        requires
            old(self).wf(),
            answers(old(self)@.op_exclusive(), reply),
        ensures
            final(self).wf(),
            final(self)@ == old(self)@.next_exclusive(reply),
    {
        match (self.at, reply) {
            (LockerAt::Reading, MutexReply::Value(v)) => {
                self.decide(v);
            },
            (LockerAt::Taking, MutexReply::Exchanged) => {
                self.at = LockerAt::Holding;
            },
            (LockerAt::Taking, MutexReply::NotExchanged(v)) => {
                self.decide(v);
            },
            (LockerAt::Resting(_), _) => {
                self.decide(self.state);
            },
            (LockerAt::Parking, MutexReply::Exchanged) => {
                self.at = LockerAt::Checking;
            },
            (LockerAt::Parking, MutexReply::NotExchanged(v)) => {
                self.decide(v);
            },
            (LockerAt::Checking, MutexReply::Value(v)) => {
                proof {
                    lemma_bits(v);
                }
                if (v & ONE_WRITER == 0) || (v & WRITERS_PARKED == 0) {
                    self.backoff.reset();
                    self.acquire_with = WRITERS_PARKED;
                    self.at = LockerAt::Reading;
                } else {
                    self.at = LockerAt::Watching;
                }
            },
            (LockerAt::Watching, MutexReply::Value(v)) => {
                self.at = LockerAt::Sleeping(v);
            },
            (LockerAt::Sleeping(_), _) => {
                self.at = LockerAt::Checking;
            },
            _ => {},
        }
    }
}

impl LockerView {
    /// The locker decides by the state word `state`: it joins the readers unless
    /// a writer holds the lock, rests while its backoff is not completed, and
    /// then sleeps, which needs a mark in the state word unless there is one.
    pub open spec fn decide_shared(self, state: usize) -> LockerView {
        let now = LockerView { state, ..self };
        if !decode(state).writer {
            LockerView { at: LockerAt::Taking, ..now }
        } else if decode(state).readers_parked {
            LockerView { at: LockerAt::Checking, ..now }
        } else if self.step <= backoff::YIELD_LIMIT {
            LockerView {
                at: LockerAt::Resting(
                    if self.step <= backoff::SPIN_LIMIT {
                        Pause::Spin(backoff::spin_hints(self.step))
                    } else {
                        Pause::Yield
                    },
                ),
                step: (self.step + 1) as u32,
                ..now
            }
        } else {
            LockerView { at: LockerAt::Parking, ..now }
        }
    }

    /// The shared locker after `reply`.
    pub open spec fn next_shared(self, reply: MutexReply) -> LockerView {
        match (self.at, reply) {
            (LockerAt::Reading, MutexReply::Value(v)) => self.decide_shared(v),
            (LockerAt::Taking, MutexReply::Exchanged) => LockerView {
                at: LockerAt::Holding,
                ..self
            },
            (LockerAt::Taking, _) => LockerView { at: LockerAt::Reading, ..self },
            (LockerAt::Resting(_), _) => LockerView { at: LockerAt::Reading, ..self },
            (LockerAt::Parking, MutexReply::Exchanged) => LockerView {
                at: LockerAt::Checking,
                ..self
            },
            (LockerAt::Parking, _) => LockerView { at: LockerAt::Reading, ..self },
            (LockerAt::Checking, MutexReply::Value(v)) => if !decode(v).writer || !decode(
                v,
            ).readers_parked {
                LockerView { at: LockerAt::Reading, step: 0, ..self }
            } else {
                LockerView { at: LockerAt::Watching, ..self }
            },
            (LockerAt::Watching, MutexReply::Value(v)) => LockerView {
                at: LockerAt::Sleeping(v),
                ..self
            },
            (LockerAt::Sleeping(_), _) => LockerView { at: LockerAt::Checking, ..self },
            _ => self,
        }
    }

    /// What the shared locker wants done.
    pub open spec fn op_shared(self) -> MutexOp {
        match self.at {
            LockerAt::Reading => MutexOp::Load(Word::State),
            LockerAt::Taking => MutexOp::CompareExchange {
                current: self.state,
                new: (self.state + ONE_READER) as usize,
            },
            LockerAt::Resting(p) => MutexOp::Rest(p),
            LockerAt::Parking => MutexOp::CompareExchange {
                current: self.state,
                new: self.state | READERS_PARKED,
            },
            LockerAt::Checking => MutexOp::Load(Word::State),
            LockerAt::Watching => MutexOp::Load(Word::ReadersFutex),
            LockerAt::Sleeping(key) => MutexOp::Sleep { word: Word::ReadersFutex, key },
            LockerAt::Holding => MutexOp::Finished,
        }
    }

    /// A shared locker never joins a writer by the word that it goes by, and
    /// only parks where a writer holds the lock.
    pub open spec fn sound_shared(self) -> bool {
        &&& self.at is Taking ==> !decode(self.state).writer
        &&& self.at is Parking ==> decode(self.state).writer && !decode(self.state).readers_parked
        &&& self.step <= backoff::YIELD_LIMIT + 1
    }
}

/// A thread that takes the lock in shared mode under contention.
pub struct SharedLocker {
    at: LockerAt,
    state: usize,
    backoff: Backoff,
}

impl View for SharedLocker {
    type V = LockerView;

    closed spec fn view(&self) -> LockerView {
        LockerView { at: self.at, state: self.state, slept: false, step: self.backoff@ }
    }
}

impl SharedLocker {
    /// The locker is in order.
    pub closed spec fn wf(&self) -> bool {
        &&& self.backoff.wf()
        &&& self@.sound_shared()
    }

    /// A locker that has not looked at the lock yet.
    pub fn start() -> (locker: Self)
        ensures
            locker.wf(),
            locker@ == (LockerView { at: LockerAt::Reading, state: 0, slept: false, step: 0 }),
    {
        SharedLocker { at: LockerAt::Reading, state: 0, backoff: Backoff::new() }
    }

    /// A locker that wakes from its sleep.
    pub fn woken() -> (locker: Self)
        ensures
            locker.wf(),
            locker@ == (LockerView { at: LockerAt::Checking, state: 0, slept: false, step: 0 }),
    {
        SharedLocker { at: LockerAt::Checking, state: 0, backoff: Backoff::new() }
    }

    /// What the locker wants done.
    pub fn op(&self) -> (op: MutexOp)
        requires
            self.wf(),
        ensures
            op == self@.op_shared(),
    {
        match self.at {
            LockerAt::Reading => MutexOp::Load(Word::State),
            LockerAt::Taking => {
                proof {
                    lemma_bits(self.state);
                }
                MutexOp::CompareExchange { current: self.state, new: self.state + ONE_READER }
            },
            LockerAt::Resting(p) => MutexOp::Rest(p),
            LockerAt::Parking => MutexOp::CompareExchange {
                current: self.state,
                new: self.state | READERS_PARKED,
            },
            LockerAt::Checking => MutexOp::Load(Word::State),
            LockerAt::Watching => MutexOp::Load(Word::ReadersFutex),
            LockerAt::Sleeping(key) => MutexOp::Sleep { word: Word::ReadersFutex, key },
            LockerAt::Holding => MutexOp::Finished,
        }
    }

    /// The locker decides by the state word `state`.
    fn decide(&mut self, state: usize)
        requires
            old(self).wf(),
        ensures
            final(self).wf(),
            final(self)@ == old(self)@.decide_shared(state),
    {
        proof {
            lemma_bits(state);
        }
        self.state = state;
        if state.checked_add(ONE_READER).is_some() {
            self.at = LockerAt::Taking;
        } else if state & READERS_PARKED == 0 {
            if !self.backoff.is_completed() {
                let pause: Pause = self.backoff.snooze();
                self.at = LockerAt::Resting(pause);
            } else {
                self.at = LockerAt::Parking;
            }
        } else {
            self.at = LockerAt::Checking;
        }
    }

    /// The locker goes on with what came of its last operation.
    pub fn resume(&mut self, reply: MutexReply)
        requires
            old(self).wf(),
            answers(old(self)@.op_shared(), reply),
        ensures
            final(self).wf(),
            final(self)@ == old(self)@.next_shared(reply),
    {
        match (self.at, reply) {
            (LockerAt::Reading, MutexReply::Value(v)) => {
                self.decide(v);
            },
            (LockerAt::Taking, MutexReply::Exchanged) => {
                self.at = LockerAt::Holding;
            },
            (LockerAt::Taking, _) => {
                self.at = LockerAt::Reading;
            },
            (LockerAt::Resting(_), _) => {
                self.at = LockerAt::Reading;
            },
            (LockerAt::Parking, MutexReply::Exchanged) => {
                self.at = LockerAt::Checking;
            },
            (LockerAt::Parking, _) => {
                self.at = LockerAt::Reading;
            },
            (LockerAt::Checking, MutexReply::Value(v)) => {
                proof {
                    lemma_bits(v);
                }
                if (v & ONE_WRITER != ONE_WRITER) || (v & READERS_PARKED == 0) {
                    self.backoff.reset();
                    self.at = LockerAt::Reading;
                } else {
                    self.at = LockerAt::Watching;
                }
            },
            (LockerAt::Watching, MutexReply::Value(v)) => {
                self.at = LockerAt::Sleeping(v);
            },
            (LockerAt::Sleeping(_), _) => {
                self.at = LockerAt::Checking;
            },
            _ => {},
        }
    }
}

/// Whom a release wakes.
#[derive(Debug, Clone, Copy, PartialEq, Eq, Structural)]
pub enum MutexWake {
    /// Nobody.
    Nobody,
    /// One sleeping writer.
    OneWriter,
    /// Every sleeping reader.
    AllReaders,
}

/// What `unlock_exclusive` makes of the state word.
pub open spec fn released_exclusive(w: WordView) -> (WordView, MutexWake) {
    (
        WordView {
            writer: false,
            readers: 0,
            readers_parked: false,
            writers_parked: w.readers_parked && w.writers_parked,
        },
        if w.readers_parked {
            MutexWake::AllReaders
        } else if w.writers_parked {
            MutexWake::OneWriter
        } else {
            MutexWake::Nobody
        },
    )
}

/// What `unlock_shared` makes of the state word.
pub open spec fn released_shared(w: WordView) -> (WordView, MutexWake) {
    if w.readers == 1 && w.writers_parked && !w.readers_parked {
        (WordView { readers: 0, writers_parked: false, ..w }, MutexWake::OneWriter)
    } else {
        (WordView { readers: (w.readers - 1) as nat, ..w }, MutexWake::Nobody)
    }
}

/// What `unlock_all_shared` makes of the state word.
pub open spec fn released_all_shared(w: WordView) -> (WordView, MutexWake) {
    (
        WordView { readers: 0, ..w },
        if w.readers > 0 && w.writers_parked {
            MutexWake::OneWriter
        } else {
            MutexWake::Nobody
        },
    )
}

/// What `downgrade` makes of the state word.
pub open spec fn downgraded(w: WordView) -> (WordView, MutexWake) {
    (
        WordView { writer: false, readers: 1, ..w },
        if w.readers_parked {
            MutexWake::AllReaders
        } else {
            MutexWake::Nobody
        },
    )
}

/// The state word with one more reader; nothing where a writer holds the lock,
/// and where the new word would be that of a writer.
pub fn join_readers(state: usize) -> (joined: Option<usize>)
    ensures
        joined is Some == (!decode(state).writer && decode(state).readers + 1 < writer_mark()),
        joined matches Some(word) ==> decode(word) == (WordView {
            readers: decode(state).readers + 1,
            ..decode(state)
        }),
{
    proof {
        lemma_bits(state);
    }
    match state.checked_add(ONE_READER) {
        Some(new_state) => {
            proof {
                lemma_bits(new_state);
            }
            if new_state & ONE_WRITER != ONE_WRITER {
                Some(new_state)
            } else {
                None
            }
        },
        None => None,
    }
}

/// The state word that a writer leaves behind, and whom it wakes.
pub fn release_exclusive(state: usize) -> (r: (usize, MutexWake))
    requires
        decode(state).writer,
    ensures
        (decode(r.0), r.1) == released_exclusive(decode(state)),
{
    proof {
        lemma_bits(state);
    }
    if state == ONE_WRITER {
        return (UNLOCKED, MutexWake::Nobody);
    }
    let parked: usize = state & (READERS_PARKED | WRITERS_PARKED);
    assert(state & (1usize | 2usize) == state % 4) by (bit_vector);
    proof {
        lemma_bits(parked);
    }
    if parked & READERS_PARKED != 0 {
        let left: usize = if parked & WRITERS_PARKED != 0 {
            WRITERS_PARKED
        } else {
            UNLOCKED
        };
        (left, MutexWake::AllReaders)
    } else {
        (UNLOCKED, MutexWake::OneWriter)
    }
}

/// The state word that a leaving reader leaves behind, and whom it wakes.
pub fn release_shared(state: usize) -> (r: (usize, MutexWake))
    requires
        decode(state).readers > 0,
    ensures
        (decode(r.0), r.1) == released_shared(decode(state)),
{
    assert(4usize | 2 == 6) by (bit_vector);
    if state == (ONE_READER | WRITERS_PARKED) {
        (UNLOCKED, MutexWake::OneWriter)
    } else {
        (state - ONE_READER, MutexWake::Nobody)
    }
}

/// The state word without readers, and whom their leaving wakes.
pub fn release_all_shared(state: usize) -> (r: (usize, MutexWake))
    ensures
        (decode(r.0), r.1) == released_all_shared(decode(state)),
        decode(state).readers == 0 ==> r.0 == state,
{
    proof {
        lemma_bits(state);
        lemma_set_bits(state);
    }
    let readers: usize = readers_count(state);
    if readers == 0 {
        return (state, MutexWake::Nobody);
    }
    let new_state: usize = state & !(ONE_READER * readers);
    if state & WRITERS_PARKED != 0 {
        (new_state, MutexWake::OneWriter)
    } else {
        (new_state, MutexWake::Nobody)
    }
}

/// The state word once the writer has become a reader, and whom that wakes.
pub fn release_to_shared(state: usize) -> (r: (usize, MutexWake))
    requires
        decode(state).writer,
    ensures
        (decode(r.0), r.1) == downgraded(decode(state)),
{
    proof {
        lemma_bits(state);
        lemma_set_bits(state);
    }
    let new_state: usize = (state & !ONE_WRITER) + ONE_READER;
    if state & READERS_PARKED != 0 {
        (new_state, MutexWake::AllReaders)
    } else {
        (new_state, MutexWake::Nobody)
    }
}

/// A mutex with exclusive and shared mode, which its handles share.
pub struct Mutex {
    state: usize,
    readers_futex: usize,
    writers_futex: usize,
    ref_count: usize,
}

/// A mutex as callers see it.
pub struct MutexView {
    /// The state word; `decode` tells what it says.
    pub word: usize,
    /// The word that sleeping readers watch.
    pub readers_futex: usize,
    /// The word that sleeping writers watch.
    pub writers_futex: usize,
    /// Handles to the mutex.
    pub refs: usize,
}

/// What a `Debug` print of a mutex shows.
#[derive(Debug, Clone, Copy, PartialEq, Eq, Structural)]
pub struct MutexInfo {
    pub state: usize,
    pub exclusive_locked: bool,
    pub readers_count: usize,
    pub readers_parked: bool,
    pub writers_parked: bool,
    pub ref_count: usize,
}

impl MutexView {
    /// The futex word that a woken sleeper sees changed moves on by one.
    pub open spec fn bumped(word: usize) -> usize {
        word.wrapping_add(1)
    }

    /// The mutex after a release that makes `new` of the state word and wakes
    /// `wake`.
    pub open spec fn after_release(self, after: MutexView, new: WordView, wake: MutexWake) -> bool {
        &&& decode(after.word) == new
        &&& after.readers_futex == (if wake is AllReaders {
            MutexView::bumped(self.readers_futex)
        } else {
            self.readers_futex
        })
        &&& after.writers_futex == (if wake is OneWriter {
            MutexView::bumped(self.writers_futex)
        } else {
            self.writers_futex
        })
        &&& after.refs == self.refs
    }

    /// What an exclusive holder leaves behind who found the mutex like this, with
    /// nobody holding it, and whom its leaving wakes.
    pub open spec fn left_by_exclusive(self) -> (WordView, MutexWake) {
        released_exclusive(WordView { writer: true, ..decode(self.word) })
    }

    /// The mutex after it has been taken exclusively and given back.
    pub open spec fn passed_exclusive(self, after: MutexView) -> bool {
        self.after_release(after, self.left_by_exclusive().0, self.left_by_exclusive().1)
    }

    /// What a reader leaves behind who found the mutex like this, without a
    /// writer, and whom its leaving wakes.
    pub open spec fn left_by_shared(self) -> (WordView, MutexWake) {
        released_shared(WordView { readers: decode(self.word).readers + 1, ..decode(self.word) })
    }

    /// The mutex after it has been taken in shared mode and given back.
    pub open spec fn passed_shared(self, after: MutexView) -> bool {
        self.after_release(after, self.left_by_shared().0, self.left_by_shared().1)
    }

    /// Nothing but the state word differs.
    pub open spec fn same_but_word(self, after: MutexView) -> bool {
        after == (MutexView { word: after.word, ..self })
    }
}

impl View for Mutex {
    type V = MutexView;

    closed spec fn view(&self) -> MutexView {
        MutexView {
            word: self.state,
            readers_futex: self.readers_futex,
            writers_futex: self.writers_futex,
            refs: self.ref_count,
        }
    }
}

/// How long an exclusive locker that runs alone still takes at most, where the
/// state word is `word`.
spec fn exclusive_steps_left(l: LockerView, word: usize) -> int {
    match l.at {
        LockerAt::Reading => 30,
        LockerAt::Taking => 3,
        LockerAt::Resting(_) => 17 - l.step,
        LockerAt::Parking => 4,
        LockerAt::Checking => if decode(word).held() && decode(word).writers_parked {
            2
        } else {
            40
        },
        LockerAt::Watching => 1,
        LockerAt::Sleeping(_) => 0,
        LockerAt::Holding => 0,
    }
}

/// How long a shared locker that runs alone still takes at most.
spec fn shared_steps_left(l: LockerView, word: usize) -> int {
    match l.at {
        LockerAt::Reading => 40 - 2 * l.step,
        LockerAt::Taking => 3,
        LockerAt::Resting(_) => 41 - 2 * l.step,
        LockerAt::Parking => 4,
        LockerAt::Checking => if decode(word).writer && decode(word).readers_parked {
            2
        } else {
            50
        },
        LockerAt::Watching => 1,
        LockerAt::Sleeping(_) => 0,
        LockerAt::Holding => 0,
    }
}

impl Mutex {
    /// A free mutex with one handle.
    pub fn new() -> (lock: Self)
        ensures
            lock@ == (MutexView { word: 0, readers_futex: 0, writers_futex: 0, refs: 1 }),
            decode(lock@.word).idle(),
    {
        Mutex { state: UNLOCKED, readers_futex: 0, writers_futex: 0, ref_count: 1 }
    }

    /// The number of handles to the mutex.
    pub fn get_ref_count(&self) -> (refs: usize)
        ensures
            refs == self@.refs,
    {
        self.ref_count
    }

    /// One more handle shares the mutex.
    pub fn clone_ref(&mut self)
        requires
            old(self)@.refs < usize::MAX,
        ensures
            final(self)@ == (MutexView { refs: (old(self)@.refs + 1) as usize, ..old(self)@ }),
    {
        self.ref_count = self.ref_count + 1;
    }

    /// Gives one handle up; tells whether it was the last one, so that the
    /// mutex is to be freed.
    pub fn drop_ref(&mut self) -> (last: bool)
        requires
            old(self)@.refs > 0,
        ensures
            final(self)@ == (MutexView { refs: (old(self)@.refs - 1) as usize, ..old(self)@ }),
            last == (old(self)@.refs == 1),
    {
        self.ref_count = self.ref_count - 1;
        self.ref_count == 0
    }

    /// The number of readers that hold the mutex.
    pub fn get_shared_locked(&self) -> (readers: usize)
        ensures
            readers == decode(self@.word).readers,
    {
        readers_count(self.state)
    }

    /// Whether a writer holds the mutex.
    #[inline]
    pub fn is_locked_exclusive(&self) -> (locked: bool)
        ensures
            locked == decode(self@.word).writer,
    {
        is_writer_locked(self.state)
    }

    /// Whether readers hold the mutex.
    #[inline]
    pub fn is_locked_shared(&self) -> (locked: bool)
        ensures
            locked == (decode(self@.word).readers > 0),
    {
        !is_writer_locked(self.state) && readers_count(self.state) > 0
    }

    /// Whether the mutex is held in any mode.
    pub fn is_locked(&self) -> (locked: bool)
        ensures
            locked == decode(self@.word).held(),
    {
        proof {
            lemma_bits(self.state);
        }
        self.state & ONE_WRITER != 0
    }

    /// Performs one operation of a locker.
    pub fn perform(&mut self, op: MutexOp) -> (reply: MutexReply)
        requires
            !(op is Sleep),
            !(op is Finished),
        ensures
            answers(op, reply),
            atomic_step(old(self)@, op, reply, final(self)@),
            reply is NotExchanged ==> op->CompareExchange_current != old(self)@.word,
    {
        match op {
            MutexOp::Load(Word::State) => MutexReply::Value(self.state),
            MutexOp::Load(Word::ReadersFutex) => MutexReply::Value(self.readers_futex),
            MutexOp::Load(Word::WritersFutex) => MutexReply::Value(self.writers_futex),
            MutexOp::CompareExchange { current, new } => {
                if self.state == current {
                    self.state = new;
                    MutexReply::Exchanged
                } else {
                    MutexReply::NotExchanged(self.state)
                }
            },
            _ => MutexReply::Resumed,
        }
    }

    /// Takes the mutex exclusively if nobody holds it and nobody sleeps.
    #[inline]
    pub fn try_lock_exclusive(&mut self) -> (taken: bool)
        ensures
            taken == decode(old(self)@.word).idle(),
            old(self)@.same_but_word(final(self)@),
            !taken ==> final(self)@ == old(self)@,
            taken ==> decode(final(self)@.word) == (WordView {
                writer: true,
                ..decode(old(self)@.word)
            }),
    {
        proof {
            lemma_bits(self.state);
            lemma_bits(ONE_WRITER);
        }
        if self.state == UNLOCKED {
            self.state = ONE_WRITER;
            true
        } else {
            false
        }
    }

    /// Takes the mutex exclusively, or asks the caller to sleep, as a thread
    /// that has not slept yet. Where the caller has to sleep, the state word
    /// says so.
    pub fn lock_exclusive(&mut self) -> (r: Attempt)
        ensures
            old(self)@.same_but_word(final(self)@),
            r is Acquired == !decode(old(self)@.word).held(),
            r is Acquired ==> decode(final(self)@.word) == (WordView {
                writer: true,
                ..decode(old(self)@.word)
            }),
            r is MustWait ==> decode(final(self)@.word) == (WordView {
                writers_parked: true,
                ..decode(old(self)@.word)
            }),
    {
        if self.try_lock_exclusive() {
            Attempt::Acquired
        } else {
            self.lock_exclusive_slow(ExclusiveLocker::start())
        }
    }

    /// What a writer does that has been woken: it takes the mutex and leaves the
    /// mark of sleeping writers, since there may be more of them, or sleeps
    /// again.
    pub fn retry_exclusive(&mut self) -> (r: Attempt)
        ensures
            old(self)@.same_but_word(final(self)@),
            r is Acquired == !decode(old(self)@.word).held(),
            r is Acquired ==> decode(final(self)@.word) == (WordView {
                writer: true,
                writers_parked: true,
                ..decode(old(self)@.word)
            }),
            r is MustWait ==> decode(final(self)@.word) == (WordView {
                writers_parked: true,
                ..decode(old(self)@.word)
            }),
    {
        self.lock_exclusive_slow(ExclusiveLocker::woken())
    }

    /// Runs a locker until it holds the mutex or has to sleep.
    fn lock_exclusive_slow(&mut self, started: ExclusiveLocker) -> (r: Attempt)
        requires
            started.wf(),
            started@.at is Reading || started@.at is Checking,
            !started@.slept,
            started@.step == 0,
        ensures
            old(self)@.same_but_word(final(self)@),
            r is Acquired == !decode(old(self)@.word).held(),
            r is Acquired ==> decode(final(self)@.word) == (WordView {
                writer: true,
                writers_parked: started@.at is Checking || decode(old(self)@.word).writers_parked,
                ..decode(old(self)@.word)
            }),
            r is MustWait ==> decode(final(self)@.word) == (WordView {
                writers_parked: true,
                ..decode(old(self)@.word)
            }),
    {
        let ghost before = self@;
        let ghost was_woken = started@.at is Checking;
        let mut locker: ExclusiveLocker = started;
        proof {
            lemma_bits(self.state);
            lemma_set_bits(self.state);
        }
        loop
            invariant
                before == old(self)@,
                was_woken == started@.at is Checking,
                locker.wf(),
                before.same_but_word(self@),
                locker@.at is Reading || locker@.at is Taking || locker@.at is Resting
                    || locker@.at is Parking ==> self@.word == before.word && locker@.slept
                    == was_woken,
                locker@.at is Taking || locker@.at is Resting || locker@.at is Parking
                    ==> locker@.state == before.word,
                locker@.at is Resting || locker@.at is Parking ==> decode(before.word).held()
                    && !decode(before.word).writers_parked,
                locker@.at is Checking || locker@.at is Watching || locker@.at is Sleeping ==> {
                    ||| self@.word == before.word && was_woken && locker@.at is Checking
                        && !locker@.slept
                    ||| decode(before.word).held() && decode(self@.word) == (WordView {
                        writers_parked: true,
                        ..decode(before.word)
                    })
                },
                locker@.at is Holding ==> !decode(before.word).held() && decode(self@.word) == (
                WordView {
                    writer: true,
                    writers_parked: was_woken || decode(before.word).writers_parked,
                    ..decode(before.word)
                }),
                locker@.at is Resting ==> locker@.step >= 1,
                before.word | READERS_PARKED == before.word - before.word % 2 + 1,
                before.word | WRITERS_PARKED == before.word + (if (before.word / 2) % 2 == 1 {
                    0int
                } else {
                    2
                }),
                before.word | ONE_WRITER | UNLOCKED == ONE_WRITER + before.word % 4,
                before.word | ONE_WRITER | WRITERS_PARKED == ONE_WRITER + before.word % 2 + 2,
                ONE_WRITER == 4 * writer_mark(),
                ONE_WRITER == usize::MAX - 3,
            decreases exclusive_steps_left(locker@, self@.word),
        {
            let op: MutexOp = locker.op();
            match op {
                MutexOp::Sleep { .. } => {
                    return Attempt::MustWait;
                },
                MutexOp::Finished => {
                    return Attempt::Acquired;
                },
                _ => {},
            }
            let reply: MutexReply = self.perform(op);
            locker.resume(reply);
        }
    }

    /// Joins the readers without waiting; fails where a writer holds the mutex,
    /// and where the word cannot count one more reader.
    #[inline]
    pub fn try_lock_shared(&mut self) -> (taken: bool)
        ensures
            taken == (!decode(old(self)@.word).writer && decode(old(self)@.word).readers + 1
                < writer_mark()),
            old(self)@.same_but_word(final(self)@),
            !taken ==> final(self)@ == old(self)@,
            taken ==> decode(final(self)@.word) == (WordView {
                readers: decode(old(self)@.word).readers + 1,
                ..decode(old(self)@.word)
            }),
    {
        match join_readers(self.state) {
            Some(new_state) => {
                self.state = new_state;
                true
            },
            None => false,
        }
    }

    /// Joins the readers, or asks the caller to sleep where a writer holds the
    /// mutex, as a thread that has not slept yet. The word counts fewer than
    /// `writer_mark()` readers.
    pub fn lock_shared(&mut self) -> (r: Attempt)
        requires
            !decode(old(self)@.word).writer ==> decode(old(self)@.word).readers + 1
                < writer_mark(),
        ensures
            old(self)@.same_but_word(final(self)@),
            r is Acquired == !decode(old(self)@.word).writer,
            r is Acquired ==> decode(final(self)@.word) == (WordView {
                readers: decode(old(self)@.word).readers + 1,
                ..decode(old(self)@.word)
            }),
            r is MustWait ==> decode(final(self)@.word) == (WordView {
                readers_parked: true,
                ..decode(old(self)@.word)
            }),
    {
        if self.try_lock_shared() {
            Attempt::Acquired
        } else {
            self.lock_shared_slow(SharedLocker::start())
        }
    }

    /// What a reader does that has been woken: it joins the readers or sleeps
    /// again.
    pub fn retry_shared(&mut self) -> (r: Attempt)
        requires
            !decode(old(self)@.word).writer ==> decode(old(self)@.word).readers + 1
                < writer_mark(),
        ensures
            old(self)@.same_but_word(final(self)@),
            r is Acquired == !decode(old(self)@.word).writer,
            r is Acquired ==> decode(final(self)@.word) == (WordView {
                readers: decode(old(self)@.word).readers + 1,
                ..decode(old(self)@.word)
            }),
            r is MustWait ==> decode(final(self)@.word) == (WordView {
                readers_parked: true,
                ..decode(old(self)@.word)
            }),
    {
        self.lock_shared_slow(SharedLocker::woken())
    }

    /// Runs a locker until it holds the mutex or has to sleep.
    fn lock_shared_slow(&mut self, started: SharedLocker) -> (r: Attempt)
        requires
            started.wf(),
            started@.at is Reading || started@.at is Checking,
            started@.step == 0,
            !decode(old(self)@.word).writer ==> decode(old(self)@.word).readers + 1
                < writer_mark(),
        ensures
            old(self)@.same_but_word(final(self)@),
            r is Acquired == !decode(old(self)@.word).writer,
            r is Acquired ==> decode(final(self)@.word) == (WordView {
                readers: decode(old(self)@.word).readers + 1,
                ..decode(old(self)@.word)
            }),
            r is MustWait ==> decode(final(self)@.word) == (WordView {
                readers_parked: true,
                ..decode(old(self)@.word)
            }),
    {
        let ghost before = self@;
        let mut locker: SharedLocker = started;
        proof {
            lemma_bits(self.state);
            lemma_set_bits(self.state);
        }
        loop
            invariant
                before == old(self)@,
                locker.wf(),
                before.same_but_word(self@),
                !decode(before.word).writer ==> decode(before.word).readers + 1 < writer_mark(),
                locker@.at is Reading || locker@.at is Taking || locker@.at is Resting
                    || locker@.at is Parking ==> self@.word == before.word,
                locker@.at is Taking || locker@.at is Resting || locker@.at is Parking
                    ==> locker@.state == before.word,
                locker@.at is Resting || locker@.at is Parking ==> decode(before.word).writer
                    && !decode(before.word).readers_parked,
                locker@.at is Checking || locker@.at is Watching || locker@.at is Sleeping ==> {
                    ||| self@.word == before.word && locker@.at is Checking
                    ||| decode(before.word).writer && decode(self@.word) == (WordView {
                        readers_parked: true,
                        ..decode(before.word)
                    })
                },
                locker@.at is Holding ==> !decode(before.word).writer && decode(self@.word) == (
                WordView { readers: decode(before.word).readers + 1, ..decode(before.word) }),
                before.word | READERS_PARKED == before.word - before.word % 2 + 1,
                ONE_WRITER == 4 * writer_mark(),
                ONE_WRITER == usize::MAX - 3,
            decreases shared_steps_left(locker@, self@.word),
        {
            let op: MutexOp = locker.op();
            match op {
                MutexOp::Sleep { .. } => {
                    return Attempt::MustWait;
                },
                MutexOp::Finished => {
                    return Attempt::Acquired;
                },
                _ => {},
            }
            let reply: MutexReply = self.perform(op);
            locker.resume(reply);
        }
    }

    /// The words after a release that leaves the state word `new_state` and
    /// wakes `wake`.
    fn announce(&mut self, new_state: usize, wake: MutexWake)
        ensures
            old(self)@.after_release(final(self)@, decode(new_state), wake),
    {
        self.state = new_state;
        match wake {
            MutexWake::AllReaders => {
                self.readers_futex = self.readers_futex.wrapping_add(1);
            },
            MutexWake::OneWriter => {
                self.writers_futex = self.writers_futex.wrapping_add(1);
            },
            MutexWake::Nobody => {},
        }
    }

    /// The writer leaves. Sleeping readers are woken before sleeping writers.
    pub fn unlock_exclusive(&mut self) -> (wake: MutexWake)
        requires
            decode(old(self)@.word).writer,
        ensures
            wake == released_exclusive(decode(old(self)@.word)).1,
            old(self)@.after_release(
                final(self)@,
                released_exclusive(decode(old(self)@.word)).0,
                wake,
            ),
    {
        let (new_state, wake): (usize, MutexWake) = release_exclusive(self.state);
        self.announce(new_state, wake);
        wake
    }

    /// One reader leaves. The last one wakes a sleeping writer.
    pub fn unlock_shared(&mut self) -> (wake: MutexWake)
        requires
            decode(old(self)@.word).readers > 0,
        ensures
            wake == released_shared(decode(old(self)@.word)).1,
            old(self)@.after_release(
                final(self)@,
                released_shared(decode(old(self)@.word)).0,
                wake,
            ),
    {
        let (new_state, wake): (usize, MutexWake) = release_shared(self.state);
        self.announce(new_state, wake);
        wake
    }

    /// Every reader leaves at once; a sleeping writer is woken. Without readers
    /// nothing changes.
    pub fn unlock_all_shared(&mut self) -> (wake: MutexWake)
        ensures
            wake == released_all_shared(decode(old(self)@.word)).1,
            old(self)@.after_release(
                final(self)@,
                released_all_shared(decode(old(self)@.word)).0,
                wake,
            ),
    {
        let (new_state, wake): (usize, MutexWake) = release_all_shared(self.state);
        self.announce(new_state, wake);
        wake
    }

    /// The writer becomes a reader; sleeping readers are woken to join it.
    pub fn downgrade(&mut self) -> (wake: MutexWake)
        requires
            decode(old(self)@.word).writer,
        ensures
            old(self)@.same_but_word(final(self)@),
            (decode(final(self)@.word), wake) == downgraded(decode(old(self)@.word)),
    {
        let (new_state, wake): (usize, MutexWake) = release_to_shared(self.state);
        self.state = new_state;
        wake
    }

    /// What a `Debug` print of the mutex shows.
    pub fn info(&self) -> (info: MutexInfo)
        ensures
            info.state == self@.word,
            info.exclusive_locked == decode(self@.word).writer,
            info.readers_count == decode(self@.word).readers,
            info.readers_parked == decode(self@.word).readers_parked,
            info.writers_parked == decode(self@.word).writers_parked,
            info.ref_count == self@.refs,
    {
        proof {
            lemma_bits(self.state);
        }
        MutexInfo {
            state: self.state,
            exclusive_locked: self.is_locked_exclusive(),
            readers_count: readers_count(self.state),
            readers_parked: self.state & READERS_PARKED != 0,
            writers_parked: self.state & WRITERS_PARKED != 0,
            ref_count: self.ref_count,
        }
    }
}

/// Two state words that say the same are the same.
pub proof fn lemma_decode_is_exact(a: usize, b: usize)
    requires
        decode(a) == decode(b),
    ensures
        a == b,
{
}

/// A mutex together with the locks that have been granted and not given back.
pub struct World {
    pub lock: MutexView,
    /// Writers that hold the mutex.
    pub writers: nat,
    /// Readers that hold the mutex.
    pub readers: nat,
}

impl World {
    /// The state word says exactly who holds the mutex, and a writer holds it
    /// alone.
    pub open spec fn consistent(self) -> bool {
        &&& self.writers == (if decode(self.lock.word).writer { 1nat } else { 0 })
        &&& self.readers == decode(self.lock.word).readers
        &&& self.writers > 0 ==> self.readers == 0
    }
}

/// A free mutex that nobody has been granted is consistent.
pub proof fn law_a_free_mutex_is_consistent(lock: MutexView)
    requires
        !decode(lock.word).held(),
    ensures
        (World { lock, writers: 0, readers: 0 }).consistent(),
{
}

/// In every consistent world at most one writer holds the mutex, and no reader
/// beside it.
pub proof fn law_a_writer_is_alone(world: World)
    requires
        world.consistent(),
    ensures
        world.writers <= 1,
        world.writers == 1 ==> world.readers == 0,
{
}

/// Whatever the other threads do in between, a step of an exclusive locker
/// keeps the word true of the holders: it becomes a holder only by the very step
/// that turns the word of a free mutex into that of a writer.
pub proof fn law_exclusive_step_keeps_exclusion(
    world: World,
    locker: LockerView,
    reply: MutexReply,
    after: MutexView,
)
    requires
        world.consistent(),
        locker.sound_exclusive(),
        atomic_step(world.lock, locker.op_exclusive(), reply, after),
    ensures
        locker.next_exclusive(reply).sound_exclusive(),
        (World {
            lock: after,
            writers: if locker.next_exclusive(reply).at is Holding {
                world.writers + 1
            } else {
                world.writers
            },
            ..world
        }).consistent(),
        locker.next_exclusive(reply).at is Holding ==> world.writers == 0 && world.readers == 0,
{
    lemma_bits(locker.state);
    lemma_set_bits(locker.state);
}

/// Whatever the other threads do in between, a step of a shared locker keeps
/// the word true of the holders, as long as the word can count one more reader:
/// it becomes a holder only by the very step that counts it, where no writer is.
pub proof fn law_shared_step_keeps_exclusion(
    world: World,
    locker: LockerView,
    reply: MutexReply,
    after: MutexView,
)
    requires
        world.consistent(),
        world.readers + 1 < writer_mark(),
        locker.sound_shared(),
        atomic_step(world.lock, locker.op_shared(), reply, after),
    ensures
        locker.next_shared(reply).sound_shared(),
        (World {
            lock: after,
            readers: if locker.next_shared(reply).at is Holding {
                world.readers + 1
            } else {
                world.readers
            },
            ..world
        }).consistent(),
        locker.next_shared(reply).at is Holding ==> world.writers == 0,
{
    lemma_bits(locker.state);
    lemma_set_bits(locker.state);
}

/// Every release keeps the word true of the holders that are left.
pub proof fn law_releases_keep_exclusion(world: World, after: MutexView)
    requires
        world.consistent(),
    ensures
        world.writers == 1 && decode(after.word) == released_exclusive(
            decode(world.lock.word),
        ).0 ==> (World { lock: after, writers: 0, ..world }).consistent(),
        world.readers > 0 && decode(after.word) == released_shared(decode(world.lock.word)).0 ==> (
        World { lock: after, readers: (world.readers - 1) as nat, ..world }).consistent(),
        decode(after.word) == released_all_shared(decode(world.lock.word)).0 ==> (World {
            lock: after,
            readers: 0,
            ..world
        }).consistent(),
        world.writers == 1 && decode(after.word) == downgraded(decode(world.lock.word)).0 ==> (
        World { lock: after, writers: 0, readers: 1 }).consistent(),
{
}

/// Taking the mutex and giving it back, in either mode, leaves the word of a
/// mutex without sleepers as it was.
pub proof fn law_unlock_undoes_lock(w: WordView)
    requires
        !w.writer,
        !w.readers_parked,
        !w.writers_parked,
    ensures
        w.readers == 0 ==> released_exclusive(WordView { writer: true, ..w }) == (
            w,
            MutexWake::Nobody,
        ),
        released_shared(WordView { readers: w.readers + 1, ..w }) == (w, MutexWake::Nobody),
{
}

/// A writer that becomes a reader and then leaves as one wakes a sleeping
/// writer, if no reader sleeps.
pub proof fn law_downgrade_then_leave(w: WordView)
    requires
        w.writer,
    ensures
        downgraded(w).0.readers == 1,
        !downgraded(w).0.writer,
        !released_shared(downgraded(w).0).0.held(),
        w.writers_parked && !w.readers_parked ==> released_shared(downgraded(w).0).1
            == MutexWake::OneWriter,
{
}

/// A release that frees the mutex wakes somebody if anybody sleeps: the writer
/// that leaves wakes the readers before the writers, and the last reader wakes a
/// writer, as long as no reader is marked as sleeping.
pub proof fn law_freeing_release_wakes(w: WordView)
    ensures
        w.writer && (w.readers_parked || w.writers_parked) ==> released_exclusive(w).1
            != MutexWake::Nobody,
        w.writer && w.readers_parked && w.writers_parked ==> released_exclusive(
            w,
        ).0.writers_parked,
        w.readers == 1 && w.writers_parked && !w.readers_parked ==> released_shared(w).1
            == MutexWake::OneWriter,
        w.readers > 0 && w.writers_parked ==> released_all_shared(w).1 == MutexWake::OneWriter,
{
}

/// Whoever is woken sees that the word that it watches has changed, so a thread
/// that read the word before the release does not sleep on it after that.
pub proof fn law_woken_sleeper_sees_a_new_key(
    before: MutexView,
    after: MutexView,
    new: WordView,
    wake: MutexWake,
)
    requires
        before.after_release(after, new, wake),
    ensures
        wake is AllReaders ==> after.readers_futex != before.readers_futex,
        wake is OneWriter ==> after.writers_futex != before.writers_futex,
{
}

/// A state word is made of its parts: the reader bits, which are all set for a
/// writer, and the marks of sleeping writers and sleeping readers.
pub proof fn law_word_is_made_of_its_parts(word: usize)
    ensures
        decode(word).writer ==> decode(word).readers == 0 && word == ONE_WRITER + (if decode(
            word,
        ).writers_parked {
            WRITERS_PARKED as int
        } else {
            0
        }) + (if decode(word).readers_parked {
            READERS_PARKED as int
        } else {
            0
        }),
        !decode(word).writer ==> word == ONE_READER * decode(word).readers + (if decode(
            word,
        ).writers_parked {
            WRITERS_PARKED as int
        } else {
            0
        }) + (if decode(word).readers_parked {
            READERS_PARKED as int
        } else {
            0
        }),
        decode(word).held() <==> decode(word).writer || decode(word).readers > 0,
        decode(word).idle() <==> word == UNLOCKED,
{
    lemma_bits(word);
}

/// One operation does what it is asked for and nothing else: a word that is read
/// is the one that stands there, the state word is replaced only where it is the
/// expected one, and no operation changes any other word.
pub proof fn law_one_operation_at_a_time(
    before: MutexView,
    op: MutexOp,
    reply: MutexReply,
    after: MutexView,
)
    requires
        atomic_step(before, op, reply, after),
    ensures
        before.same_but_word(after),
        reply is Exchanged || after == before,
        op matches MutexOp::CompareExchange { current, new } ==> (reply is Exchanged
            ==> before.word == current && after.word == new) && (reply
            matches MutexReply::NotExchanged(found) ==> found == before.word),
        op == MutexOp::Load(Word::State) ==> reply == MutexReply::Value(before.word),
        op == MutexOp::Load(Word::ReadersFutex) ==> reply == MutexReply::Value(
            before.readers_futex,
        ),
        op == MutexOp::Load(Word::WritersFutex) ==> reply == MutexReply::Value(
            before.writers_futex,
        ),
{
}

/// A writer that reads the word of a lock that nobody holds tries at once to turn
/// that very word into the one of a writer, with the marks that stand there; one
/// that has slept adds the mark of sleeping writers.
pub proof fn law_a_writer_takes_a_free_word(locker: LockerView, word: usize)
    requires
        locker.at is Reading,
        !decode(word).held(),
    ensures
        ({
            let next = locker.next_exclusive(MutexReply::Value(word));
            &&& next.op_exclusive() is CompareExchange
            &&& next.op_exclusive()->CompareExchange_current == word
            &&& decode(next.op_exclusive()->CompareExchange_new) == (WordView {
                writer: true,
                readers: 0,
                readers_parked: decode(word).readers_parked,
                writers_parked: decode(word).writers_parked || locker.slept,
            })
            &&& next.next_exclusive(MutexReply::Exchanged).op_exclusive() is Finished
        }),
{
    lemma_bits(word);
    lemma_set_bits(word);
    let new = locker.next_exclusive(
        MutexReply::Value(word),
    ).op_exclusive()->CompareExchange_new;
    if locker.slept {
        assert(new == ONE_WRITER + word % 2 + 2);
    } else {
        assert(new == ONE_WRITER + word % 4);
    }
    assert(new / 4 == writer_mark());
}

/// A reader that reads the word of a lock without a writer tries at once to turn
/// that very word into the one with one more reader, with the marks that stand
/// there.
pub proof fn law_a_reader_joins_a_word_without_a_writer(locker: LockerView, word: usize)
    requires
        locker.at is Reading,
        !decode(word).writer,
        decode(word).readers + 1 < writer_mark(),
    ensures
        ({
            let next = locker.next_shared(MutexReply::Value(word));
            &&& next.op_shared() is CompareExchange
            &&& next.op_shared()->CompareExchange_current == word
            &&& decode(next.op_shared()->CompareExchange_new) == (WordView {
                readers: decode(word).readers + 1,
                ..decode(word)
            })
            &&& next.next_shared(MutexReply::Exchanged).op_shared() is Finished
        }),
{
    let new = (word + ONE_READER) as usize;
    assert(new == word + 4);
    assert(new / 4 == word / 4 + 1);
}

/// A locker only sleeps at a lock that it cannot have and whose word bears the
/// mark of its kind, and it sleeps on the key that it has read after that check.
pub proof fn law_lockers_sleep_at_marked_locks(locker: LockerView, reply: MutexReply)
    ensures
        locker.next_exclusive(reply).at is Watching && !(locker.at is Watching) ==> (reply
            matches MutexReply::Value(word) && decode(word).held() && decode(
            word,
        ).writers_parked),
        locker.next_exclusive(reply).at is Sleeping && !(locker.at is Sleeping)
            ==> locker.op_exclusive() == MutexOp::Load(Word::WritersFutex) && (reply
            matches MutexReply::Value(key) && locker.next_exclusive(reply).op_exclusive()
            == (MutexOp::Sleep { word: Word::WritersFutex, key })),
        locker.next_shared(reply).at is Watching && !(locker.at is Watching) ==> (reply
            matches MutexReply::Value(word) && decode(word).writer && decode(
            word,
        ).readers_parked),
        locker.next_shared(reply).at is Sleeping && !(locker.at is Sleeping)
            ==> locker.op_shared() == MutexOp::Load(Word::ReadersFutex) && (reply
            matches MutexReply::Value(key) && locker.next_shared(reply).op_shared()
            == (MutexOp::Sleep { word: Word::ReadersFutex, key })),
{
}

/// A locker that is woken, and one that has marked the word, checks the state
/// word before it does anything else; one that finds the lock given back, or the
/// mark gone, starts its waits again from the shortest.
pub proof fn law_woken_lockers_check_first(locker: LockerView, word: usize)
    requires
        locker.at is Sleeping,
    ensures
        locker.next_exclusive(MutexReply::Resumed).op_exclusive() == MutexOp::Load(Word::State),
        locker.next_shared(MutexReply::Resumed).op_shared() == MutexOp::Load(Word::State),
        !(decode(word).held() && decode(word).writers_parked) ==> ({
            let next = locker.next_exclusive(MutexReply::Resumed).next_exclusive(
                MutexReply::Value(word),
            );
            next.slept && next.step == 0 && next.op_exclusive() == MutexOp::Load(Word::State)
        }),
        decode(word).held() && decode(word).writers_parked ==> locker.next_exclusive(
            MutexReply::Resumed,
        ).next_exclusive(MutexReply::Value(word)).op_exclusive() == MutexOp::Load(
            Word::WritersFutex,
        ),
        !(decode(word).writer && decode(word).readers_parked) ==> ({
            let next = locker.next_shared(MutexReply::Resumed).next_shared(
                MutexReply::Value(word),
            );
            next.step == 0 && next.op_shared() == MutexOp::Load(Word::State)
        }),
        decode(word).writer && decode(word).readers_parked ==> locker.next_shared(
            MutexReply::Resumed,
        ).next_shared(MutexReply::Value(word)).op_shared() == MutexOp::Load(Word::ReadersFutex),
{
}

/// An exclusive locker after the replies `replies`.
pub open spec fn run_exclusive(locker: LockerView, replies: Seq<MutexReply>) -> LockerView
    decreases replies.len(),
{
    if replies.len() == 0 {
        locker
    } else {
        run_exclusive(locker, replies.drop_last()).next_exclusive(replies.last())
    }
}

/// A shared locker after the replies `replies`.
pub open spec fn run_shared(locker: LockerView, replies: Seq<MutexReply>) -> LockerView
    decreases replies.len(),
{
    if replies.len() == 0 {
        locker
    } else {
        run_shared(locker, replies.drop_last()).next_shared(replies.last())
    }
}

/// What a writer knows that has been asleep stays known until it holds the lock.
proof fn lemma_having_slept_is_kept(locker: LockerView, replies: Seq<MutexReply>)
    requires
        locker.at is Sleeping,
    ensures
        ({
            let now = run_exclusive(locker, replies);
            now.slept || now.at is Sleeping || now.at is Checking || now.at is Watching
        }),
    decreases replies.len(),
{
    if replies.len() > 0 {
        lemma_having_slept_is_kept(locker, replies.drop_last());
    }
}

/// A writer that has been asleep leaves the mark of sleeping writers when it takes
/// the lock, whatever it is answered in between: other writers may still sleep,
/// and its own release then wakes one of them or leaves the mark in its place.
pub proof fn law_a_writer_that_slept_leaves_the_mark(
    locker: LockerView,
    replies: Seq<MutexReply>,
)
    requires
        locker.at is Sleeping,
        replies.len() > 0,
        run_exclusive(locker, replies).at is Holding,
        !(run_exclusive(locker, replies.drop_last()).at is Holding),
    ensures
        run_exclusive(locker, replies.drop_last()).op_exclusive() is CompareExchange,
        replies.last() is Exchanged,
        decode(
            run_exclusive(locker, replies.drop_last()).op_exclusive()->CompareExchange_new,
        ).writer,
        decode(
            run_exclusive(locker, replies.drop_last()).op_exclusive()->CompareExchange_new,
        ).writers_parked,
{
    lemma_having_slept_is_kept(locker, replies.drop_last());
    let before = run_exclusive(locker, replies.drop_last());
    lemma_bits(before.state);
    lemma_set_bits(before.state);
    let new = before.op_exclusive()->CompareExchange_new;
    lemma_bits(new);
}

impl LockerView {
    /// The writer sleeps, and nobody has woken it.
    pub open spec fn asleep(self, woken: bool) -> bool {
        self.at is Sleeping && !woken
    }

    /// The writer is awake after a sleep, or about to check whether it has to
    /// sleep: it will mark the word for those that still sleep.
    pub open spec fn is_heir(self, woken: bool) -> bool {
        match self.at {
            LockerAt::Sleeping(_) => woken,
            LockerAt::Holding => false,
            LockerAt::Checking => true,
            LockerAt::Watching => true,
            _ => self.slept,
        }
    }
}

/// 1 for true.
pub open spec fn one_if(b: bool) -> int {
    if b {
        1
    } else {
        0
    }
}

/// A mutex together with the writers and readers that sleep at it.
pub struct SleepWorld {
    pub lock: MutexView,
    /// Writers that sleep and have not been woken.
    pub sleeping_writers: int,
    /// Writers that are awake after a sleep and do not hold the mutex yet.
    pub heirs: int,
    /// Readers that sleep and have not been woken.
    pub sleeping_readers: int,
}

impl SleepWorld {
    /// Nobody who sleeps is forgotten: the word bears the mark of sleeping writers
    /// or a writer is on its way that will leave it, and the word bears the mark
    /// of sleeping readers.
    pub open spec fn remembers(self) -> bool {
        &&& self.sleeping_writers > 0 ==> decode(self.lock.word).writers_parked || self.heirs > 0
        &&& self.sleeping_readers > 0 ==> decode(self.lock.word).readers_parked
        &&& self.heirs >= 0
    }

    /// The world after a release that leaves `after` and wakes `wake`.
    pub open spec fn woken(self, after: MutexView, wake: MutexWake) -> SleepWorld {
        SleepWorld {
            lock: after,
            sleeping_writers: self.sleeping_writers - one_if(
                wake is OneWriter && self.sleeping_writers > 0,
            ),
            heirs: self.heirs + one_if(wake is OneWriter && self.sleeping_writers > 0),
            sleeping_readers: if wake is AllReaders {
                0
            } else {
                self.sleeping_readers
            },
        }
    }
}

/// No step of an exclusive locker makes the mutex forget who sleeps, whatever the
/// other threads do in between; a writer that falls asleep does so while the mark
/// that it has checked still stands.
pub proof fn law_exclusive_step_remembers_sleepers(
    world: SleepWorld,
    locker: LockerView,
    woken: bool,
    reply: MutexReply,
    after: MutexView,
)
    requires
        world.remembers(),
        locker.sound_exclusive(),
        locker.is_heir(woken) ==> world.heirs > 0,
        atomic_step(world.lock, locker.op_exclusive(), reply, after),
        locker.at is Watching ==> decode(world.lock.word).writers_parked,
    ensures
        (SleepWorld {
            lock: after,
            sleeping_writers: world.sleeping_writers - one_if(locker.asleep(woken)) + one_if(
                locker.next_exclusive(reply).asleep(false),
            ),
            heirs: world.heirs - one_if(locker.is_heir(woken)) + one_if(
                locker.next_exclusive(reply).is_heir(false),
            ),
            ..world
        }).remembers(),
{
    lemma_bits(locker.state);
    lemma_set_bits(locker.state);
    lemma_bits(after.word);
}

/// No step of a shared locker makes the mutex forget who sleeps, whatever the
/// other threads do in between; a reader that falls asleep does so while the mark
/// that it has checked still stands.
pub proof fn law_shared_step_remembers_sleepers(
    world: SleepWorld,
    locker: LockerView,
    woken: bool,
    reply: MutexReply,
    after: MutexView,
)
    requires
        world.remembers(),
        locker.sound_shared(),
        decode(world.lock.word).readers + 1 < writer_mark(),
        atomic_step(world.lock, locker.op_shared(), reply, after),
        locker.at is Watching ==> decode(world.lock.word).readers_parked,
    ensures
        (SleepWorld {
            lock: after,
            sleeping_readers: world.sleeping_readers - one_if(locker.asleep(woken)) + one_if(
                locker.next_shared(reply).asleep(false),
            ),
            ..world
        }).remembers(),
{
    lemma_bits(locker.state);
    lemma_set_bits(locker.state);
    lemma_bits(after.word);
}

/// No release makes the mutex forget who sleeps: a mark goes only with somebody
/// being woken.
pub proof fn law_releases_remember_sleepers(world: SleepWorld, after: MutexView)
    requires
        world.remembers(),
    ensures
        ({
            let w = decode(world.lock.word);
            &&& w.writer && decode(after.word) == released_exclusive(w).0 ==> world.woken(
                after,
                released_exclusive(w).1,
            ).remembers()
            &&& w.readers > 0 && decode(after.word) == released_shared(w).0 ==> world.woken(
                after,
                released_shared(w).1,
            ).remembers()
            &&& decode(after.word) == released_all_shared(w).0 ==> world.woken(
                after,
                released_all_shared(w).1,
            ).remembers()
            &&& w.writer && decode(after.word) == downgraded(w).0 ==> world.woken(
                after,
                downgraded(w).1,
            ).remembers()
        }),
{
}

/// A mutex that remembers its sleepers is not left to them: while some sleep and
/// none of them is on its way, the writer that leaves wakes somebody, and so does
/// the last reader where no reader sleeps.
pub proof fn law_remembered_sleepers_are_woken(world: SleepWorld)
    requires
        world.remembers(),
        world.heirs == 0,
        world.sleeping_writers > 0 || world.sleeping_readers > 0,
    ensures
        ({
            let w = decode(world.lock.word);
            &&& w.writer ==> !(released_exclusive(w).1 is Nobody)
            &&& w.writer && world.sleeping_readers > 0 ==> released_exclusive(w).1 is AllReaders
            &&& w.readers == 1 && world.sleeping_writers > 0 && !w.readers_parked
                ==> released_shared(w).1 is OneWriter
        }),
{
}

/// Whom a release wakes: sleeping readers before sleeping writers where a writer
/// leaves, a sleeping writer where the last reader leaves and no reader sleeps,
/// and nobody where nobody is marked. A release takes only its own holding away.
pub proof fn law_releases_wake_by_the_marks(w: WordView)
    ensures
        w.writer && w.readers_parked ==> released_exclusive(w).1 is AllReaders,
        w.writer && !w.readers_parked && w.writers_parked ==> released_exclusive(w).1 is OneWriter,
        w.writer && !w.readers_parked && !w.writers_parked ==> released_exclusive(w).1 is Nobody,
        w.writer ==> !released_exclusive(w).0.held() && !released_exclusive(w).0.readers_parked,
        w.writer ==> (released_exclusive(w).0.writers_parked <==> w.readers_parked
            && w.writers_parked),
        w.readers > 0 ==> released_shared(w).0.readers == w.readers - 1
            && released_shared(w).0.writer == w.writer && released_shared(w).0.readers_parked
            == w.readers_parked,
        w.readers > 0 && !(w.readers == 1 && w.writers_parked && !w.readers_parked)
            ==> released_shared(w).1 is Nobody && released_shared(w).0.writers_parked
            == w.writers_parked,
        released_all_shared(w).0.readers == 0,
        released_all_shared(w).0.writer == w.writer,
        released_all_shared(w).0.readers_parked == w.readers_parked,
        released_all_shared(w).0.writers_parked == w.writers_parked,
        released_all_shared(w).1 is OneWriter <==> w.readers > 0 && w.writers_parked,
        !(released_all_shared(w).1 is AllReaders),
        w.writer ==> !downgraded(w).0.writer && downgraded(w).0.readers == 1
            && downgraded(w).0.readers_parked == w.readers_parked
            && downgraded(w).0.writers_parked == w.writers_parked,
        downgraded(w).1 is AllReaders <==> w.readers_parked,
        !(downgraded(w).1 is OneWriter),
{
}

/// A release moves the word on that those whom it wakes watch, by one, and no
/// other; it keeps the handles.
pub proof fn law_release_moves_only_the_watched_word(
    before: MutexView,
    after: MutexView,
    new: WordView,
    wake: MutexWake,
)
    requires
        before.after_release(after, new, wake),
    ensures
        decode(after.word) == new,
        after.refs == before.refs,
        !(wake is AllReaders) ==> after.readers_futex == before.readers_futex,
        !(wake is OneWriter) ==> after.writers_futex == before.writers_futex,
        wake is AllReaders && before.readers_futex < usize::MAX ==> after.readers_futex
            == before.readers_futex + 1,
        wake is OneWriter && before.writers_futex < usize::MAX ==> after.writers_futex
            == before.writers_futex + 1,
{
}

/// A lock that is taken and given back at once has the holders that it had, and
/// the sleepers that its marks speak of are not forgotten.
pub proof fn law_passing_through_keeps_holders(world: SleepWorld, after: MutexView)
    requires
        world.remembers(),
        !decode(world.lock.word).writer,
    ensures
        world.lock.passed_exclusive(after) && !decode(world.lock.word).held() ==> {
            &&& !decode(after.word).held()
            &&& world.woken(after, world.lock.left_by_exclusive().1).remembers()
            &&& decode(world.lock.word).idle() ==> after == world.lock
        },
        world.lock.passed_shared(after) ==> {
            &&& !decode(after.word).writer
            &&& decode(after.word).readers == decode(world.lock.word).readers
            &&& world.woken(after, world.lock.left_by_shared().1).remembers()
            &&& !decode(world.lock.word).readers_parked && !decode(
                world.lock.word,
            ).writers_parked ==> after == world.lock
        },
{
    if decode(after.word) == decode(world.lock.word) {
        lemma_decode_is_exact(after.word, world.lock.word);
    }
}

/// `k` ends of a wait.
pub open spec fn resumed(k: nat) -> Seq<MutexReply> {
    Seq::new(k, |i: int| MutexReply::Resumed)
}

/// A writer waits eleven times, by doubling spins and then by yielding, before it
/// marks the word in order to sleep, where it goes on seeing a lock that is held
/// and not marked.
pub proof fn law_a_writer_rests_before_it_parks(locker: LockerView, word: usize, k: nat)
    requires
        locker.at is Reading,
        locker.step == 0,
        decode(word).held(),
        !decode(word).writers_parked,
        k <= backoff::YIELD_LIMIT + 1,
    ensures
        ({
            let now = run_exclusive(locker.next_exclusive(MutexReply::Value(word)), resumed(k));
            &&& now.state == word
            &&& now.slept == locker.slept
            &&& k <= backoff::SPIN_LIMIT ==> now.op_exclusive() == MutexOp::Rest(
                Pause::Spin(backoff::spin_hints(k as u32)),
            )
            &&& backoff::SPIN_LIMIT < k <= backoff::YIELD_LIMIT ==> now.op_exclusive()
                == MutexOp::Rest(Pause::Yield)
            &&& k == backoff::YIELD_LIMIT + 1 ==> now.op_exclusive() is CompareExchange
                && now.op_exclusive()->CompareExchange_current == word && decode(
                now.op_exclusive()->CompareExchange_new,
            ) == (WordView { writers_parked: true, ..decode(word) })
            &&& k <= backoff::YIELD_LIMIT ==> now.step == k + 1
            &&& k == backoff::YIELD_LIMIT + 1 ==> now.at is Parking
        }),
    decreases k,
{
    lemma_bits(word);
    lemma_set_bits(word);
    if k > 0 {
        law_a_writer_rests_before_it_parks(locker, word, (k - 1) as nat);
        assert(resumed(k).drop_last() =~= resumed((k - 1) as nat));
        assert(run_exclusive(locker.next_exclusive(MutexReply::Value(word)), resumed(k))
            == run_exclusive(
            locker.next_exclusive(MutexReply::Value(word)),
            resumed((k - 1) as nat),
        ).next_exclusive(MutexReply::Resumed));
    }
    if k == backoff::YIELD_LIMIT + 1 {
        lemma_bits(word | WRITERS_PARKED);
    }
}

/// A reader that sees a writer hold a lock without the mark waits by its backoff
/// and reads again until that is completed, and marks the word then.
pub proof fn law_a_reader_rests_before_it_parks(locker: LockerView, word: usize)
    requires
        locker.at is Reading,
        decode(word).writer,
        !decode(word).readers_parked,
    ensures
        ({
            let now = locker.next_shared(MutexReply::Value(word));
            &&& locker.step <= backoff::SPIN_LIMIT ==> now.op_shared() == MutexOp::Rest(
                Pause::Spin(backoff::spin_hints(locker.step)),
            )
            &&& backoff::SPIN_LIMIT < locker.step <= backoff::YIELD_LIMIT ==> now.op_shared()
                == MutexOp::Rest(Pause::Yield)
            &&& locker.step <= backoff::YIELD_LIMIT ==> now.step == locker.step + 1
                && now.next_shared(MutexReply::Resumed).at is Reading && now.next_shared(
                MutexReply::Resumed,
            ).step == now.step
            &&& locker.step > backoff::YIELD_LIMIT ==> now.op_shared() is CompareExchange
                && now.op_shared()->CompareExchange_current == word && decode(
                now.op_shared()->CompareExchange_new,
            ) == (WordView { readers_parked: true, ..decode(word) })
        }),
{
    lemma_bits(word);
    lemma_set_bits(word);
    lemma_bits(word | READERS_PARKED);
}

/// A locker that loses the word goes on with the one that stands there: a writer
/// decides by it as if it had read it, and a reader reads again. One that has
/// marked the word, or finds it marked, checks it before it sleeps.
pub proof fn law_lockers_go_on_with_the_word_that_stands(locker: LockerView, word: usize)
    ensures
        locker.at is Taking || locker.at is Parking ==> {
            &&& locker.next_exclusive(MutexReply::NotExchanged(word)) == (LockerView {
                at: LockerAt::Reading,
                ..locker
            }).next_exclusive(MutexReply::Value(word))
            &&& locker.next_shared(MutexReply::NotExchanged(word)) == (LockerView {
                at: LockerAt::Reading,
                ..locker
            })
        },
        locker.at is Parking ==> {
            &&& locker.next_exclusive(MutexReply::Exchanged).at is Checking
            &&& locker.next_shared(MutexReply::Exchanged).at is Checking
        },
        locker.at is Reading && decode(word).held() && decode(word).writers_parked ==> {
            &&& locker.next_exclusive(MutexReply::Value(word)).at is Checking
            &&& locker.next_exclusive(MutexReply::Value(word)).step == locker.step
            &&& locker.next_exclusive(MutexReply::Value(word)).slept == locker.slept
        },
        locker.at is Reading && decode(word).writer && decode(word).readers_parked
            ==> locker.next_shared(MutexReply::Value(word)).at is Checking,
        locker.at is Checking ==> locker.op_exclusive() == MutexOp::Load(Word::State)
            && locker.op_shared() == MutexOp::Load(Word::State),
        locker.at is Reading ==> locker.op_exclusive() == MutexOp::Load(Word::State)
            && locker.op_shared() == MutexOp::Load(Word::State),
        locker.at is Holding ==> locker.op_exclusive() is Finished && locker.op_shared() is Finished
            && locker.next_exclusive(MutexReply::Value(word)) == locker && locker.next_shared(
            MutexReply::Value(word),
        ) == locker,
{
}

/// A locker comes to hold the lock only by an exchange that it has asked for, and a
/// writer counts as having slept only once it has checked that it need not sleep.
pub proof fn law_lockers_hold_by_their_own_exchange(locker: LockerView, reply: MutexReply)
    ensures
        locker.next_exclusive(reply).at is Holding && !(locker.at is Holding) ==> reply is Exchanged
            && locker.op_exclusive() is CompareExchange && locker.at is Taking,
        locker.next_shared(reply).at is Holding && !(locker.at is Holding) ==> reply is Exchanged
            && locker.op_shared() is CompareExchange && locker.at is Taking,
        locker.slept ==> locker.next_exclusive(reply).slept,
        locker.next_exclusive(reply).slept && !locker.slept ==> locker.at is Checking,
        locker.next_shared(reply).slept == locker.slept,
{
}

/// What differs by the state word only has the same watched words and handles.
pub proof fn law_nothing_but_the_word_differs(before: MutexView, after: MutexView)
    requires
        before.same_but_word(after),
    ensures
        after.readers_futex == before.readers_futex,
        after.writers_futex == before.writers_futex,
        after.refs == before.refs,
{
}

/// A reader that leaves takes itself out of the count. The last one takes the mark
/// of sleeping writers away exactly if it wakes one of them, and nothing else of
/// the word changes.
pub proof fn law_a_reader_takes_itself_out(w: WordView)
    requires
        w.readers > 0,
    ensures
        released_shared(w).0.readers == w.readers - 1,
        released_shared(w).0.writer == w.writer,
        released_shared(w).0.readers_parked == w.readers_parked,
        released_shared(w).1 is OneWriter ==> w.writers_parked
            && !released_shared(w).0.writers_parked,
        !(released_shared(w).1 is OneWriter) ==> released_shared(w).0.writers_parked
            == w.writers_parked,
{
}

/// All readers leaving together, and a writer that becomes a reader, keep both
/// marks; a writer that leaves keeps the mark of sleeping writers only where it
/// wakes the readers.
pub proof fn law_marks_left_by_a_release(w: WordView)
    ensures
        released_all_shared(w).0 == (WordView { readers: 0, ..w }),
        downgraded(w).0 == (WordView { writer: false, readers: 1, ..w }),
        !released_exclusive(w).0.held(),
        !released_exclusive(w).0.readers_parked,
        released_exclusive(w).0.writers_parked <==> w.writers_parked
            && released_exclusive(w).1 is AllReaders,
{
}

/// Whatever comes of an operation is an answer to it, so a locker can go on with
/// every outcome, and nothing but its outcomes answers an operation.
pub proof fn law_outcomes_answer_their_operation(
    before: MutexView,
    op: MutexOp,
    reply: MutexReply,
    after: MutexView,
)
    ensures
        atomic_step(before, op, reply, after) ==> answers(op, reply),
        answers(op, reply) ==> exists|b: MutexView, a: MutexView| #[trigger]
            atomic_step(b, op, reply, a),
        !answers(MutexOp::Finished, reply),
{
    if answers(op, reply) {
        let word = match (op, reply) {
            (MutexOp::Load(_), MutexReply::Value(v)) => v,
            (MutexOp::CompareExchange { current, new }, MutexReply::Exchanged) => current,
            (_, MutexReply::NotExchanged(v)) => v,
            _ => UNLOCKED,
        };
        let b = MutexView { word, readers_futex: word, writers_futex: word, refs: 1 };
        let a = match (op, reply) {
            (MutexOp::CompareExchange { current, new }, MutexReply::Exchanged) => MutexView {
                word: new,
                ..b
            },
            _ => b,
        };
        assert(atomic_step(b, op, reply, a));
    }
}

} // verus!
