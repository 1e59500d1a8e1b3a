//! A reader-writer lock in one word.
//!
//! The lowest bit of the word stands for a writer, and each reader adds two. A
//! thread that cannot have the lock sleeps while the word is what it saw.
use crate::primitives::attempt::Attempt;
use vstd::prelude::*;

verus! {

/// Nobody holds the lock.
pub const UNLOCKED: usize = 0;

/// What one reader adds to the word.
pub const ONE_READER: usize = 2;

/// The bit of a writer.
pub const ONE_WRITER: usize = 1;

/// What a word says.
pub struct RwView {
    /// A writer holds the lock.
    pub writer: bool,
    /// Readers that hold the lock.
    pub readers: nat,
}

/// What the word `word` says.
pub open spec fn decode(word: usize) -> RwView {
    RwView { writer: word % 2 == 1, readers: (word / 2) as nat }
}

/// The bit operations on a word, as arithmetic.
proof fn lemma_bits(word: usize)
    ensures
        word & ONE_WRITER == word % 2,
        word & !ONE_WRITER == 2 * (word / 2),
{
    assert(word & 1 == word % 2) by (bit_vector);
    assert(word & !1usize == 2 * (word / 2)) by (bit_vector);
}

/// The word with a writer, where that is possible on the word `word`: nobody
/// holds the lock.
pub fn enter_exclusive(word: usize) -> (new: Option<usize>)
    ensures
        new is Some == (word == UNLOCKED),
        new matches Some(w) ==> decode(w) == (RwView { writer: true, readers: 0 }),
{
    if word == UNLOCKED {
        Some(ONE_WRITER)
    } else {
        None
    }
}

/// The word with one more reader, where that is possible on the word `word`: no
/// writer holds the lock. The word can count one more reader.
pub fn enter_shared(word: usize) -> (new: Option<usize>)
    requires
        !decode(word).writer ==> word <= usize::MAX - ONE_READER,
    ensures
        new is Some == !decode(word).writer,
        new matches Some(w) ==> decode(w) == (RwView {
            writer: false,
            readers: decode(word).readers + 1,
        }),
{
    proof {
        lemma_bits(word);
    }
    if word & ONE_WRITER == 0 {
        let readers: usize = word & !ONE_WRITER;
        Some(readers + ONE_READER)
    } else {
        None
    }
}

/// The word with one reader less.
pub fn leave_shared(word: usize) -> (new: usize)
    requires
        decode(word).readers > 0,
    ensures
        decode(new) == (RwView {
            readers: (decode(word).readers - 1) as nat,
            ..decode(word)
        }),
{
    proof {
        lemma_bits(word);
    }
    let readers: usize = word & !ONE_WRITER;
    let writer: usize = word & ONE_WRITER;
    let left: usize = readers - ONE_READER;
    assert(writer | left == writer + left) by (bit_vector)
        requires
            writer <= 1,
            left % 2 == 0,
    ;
    writer | left
}

/// A reader-writer lock. Its view is its word.
pub struct RwFutex {
    state: usize,
}

/// What a `Debug` print of the lock shows.
#[derive(Debug, Clone, Copy, PartialEq, Eq, Structural)]
pub struct RwInfo {
    pub writer_locked: bool,
    pub readers: usize,
}

impl View for RwFutex {
    type V = usize;

    closed spec fn view(&self) -> usize {
        self.state
    }
}

impl RwFutex {
    /// A free lock.
    pub fn new() -> (lock: Self)
        ensures
            lock@ == UNLOCKED,
    {
        RwFutex { state: UNLOCKED }
    }

    /// A writer takes a lock that nobody holds; otherwise it sleeps while the
    /// word is what it is, and tries again.
    pub fn lock_exclusive(&mut self) -> (r: Attempt)
        ensures
            r is Acquired == (old(self)@ == UNLOCKED),
            r is Acquired ==> decode(final(self)@) == (RwView { writer: true, readers: 0 }),
            r is MustWait ==> final(self)@ == old(self)@,
    {
        match enter_exclusive(self.state) {
            Some(new_state) => {
                self.state = new_state;
                Attempt::Acquired
            },
            None => Attempt::MustWait,
        }
    }

    /// The lock becomes free, whoever held it; every sleeper is to be woken.
    pub fn unlock_exclusive(&mut self)
        ensures
            final(self)@ == UNLOCKED,
    {
        self.state = UNLOCKED;
    }

    /// A reader joins the others unless a writer holds the lock; otherwise it
    /// sleeps while the word is what it is, and tries again. The word can count
    /// one more reader.
    pub fn lock_shared(&mut self) -> (r: Attempt)
        requires
            !decode(old(self)@).writer ==> old(self)@ <= usize::MAX - ONE_READER,
        ensures
            r is Acquired == !decode(old(self)@).writer,
            r is Acquired ==> decode(final(self)@) == (RwView {
                writer: false,
                readers: decode(old(self)@).readers + 1,
            }),
            r is MustWait ==> final(self)@ == old(self)@,
    {
        match enter_shared(self.state) {
            Some(new_state) => {
                self.state = new_state;
                Attempt::Acquired
            },
            None => Attempt::MustWait,
        }
    }

    /// A reader leaves; tells whether every sleeper is to be woken, which is so
    /// where the lock became free.
    pub fn unlock_shared(&mut self) -> (wakes: bool)
        requires
            decode(old(self)@).readers > 0,
        ensures
            decode(final(self)@) == (RwView {
                readers: (decode(old(self)@).readers - 1) as nat,
                ..decode(old(self)@)
            }),
            wakes == (final(self)@ == UNLOCKED),
    {
        self.state = leave_shared(self.state);
        self.state == UNLOCKED
    }

    /// The reader part of the word: two for each reader.
    pub fn readers(&self) -> (part: usize)
        ensures
            part == 2 * decode(self@).readers,
    {
        proof {
            lemma_bits(self.state);
        }
        self.state & !ONE_WRITER
    }

    /// Whether a writer holds the lock.
    pub fn is_writer_locked(&self) -> (locked: bool)
        ensures
            locked == decode(self@).writer,
    {
        proof {
            lemma_bits(self.state);
        }
        self.state & ONE_WRITER != 0
    }

    /// What a `Debug` print of the lock shows.
    pub fn info(&self) -> (info: RwInfo)
        ensures
            info.writer_locked == decode(self@).writer,
            info.readers == 2 * decode(self@).readers,
    {
        RwInfo { writer_locked: self.is_writer_locked(), readers: self.readers() }
    }
}

/// A word together with the locks that have been granted and not given back.
pub struct RwWorld {
    pub word: usize,
    pub writers: nat,
    pub readers: nat,
}

impl RwWorld {
    /// The word says who holds the lock, and a writer holds it alone.
    pub open spec fn consistent(self) -> bool {
        &&& self.writers == (if decode(self.word).writer {
            1nat
        } else {
            0
        })
        &&& self.readers == decode(self.word).readers
        &&& self.writers > 0 ==> self.readers == 0
    }
}

/// However the threads take turns, a writer holds the lock alone: a thread
/// enters only by replacing the word on which it decided, and every such step,
/// and every leaving of a holder, keeps the word true of the holders.
pub proof fn law_a_writer_is_alone(world: RwWorld, new: usize)
    requires
        world.consistent(),
    ensures
        world.writers <= 1,
        world.writers == 1 ==> world.readers == 0,
        world.word == UNLOCKED && decode(new) == (RwView { writer: true, readers: 0 }) ==> (
        RwWorld { word: new, writers: world.writers + 1, ..world }).consistent(),
        !decode(world.word).writer && decode(new) == (RwView {
            writer: false,
            readers: decode(world.word).readers + 1,
        }) ==> (RwWorld { word: new, readers: world.readers + 1, ..world }).consistent(),
        world.readers > 0 && decode(new) == (RwView {
            readers: (decode(world.word).readers - 1) as nat,
            ..decode(world.word)
        }) ==> (RwWorld { word: new, readers: (world.readers - 1) as nat, ..world }).consistent(),
        world.writers == 1 ==> (RwWorld { word: UNLOCKED, writers: 0, ..world }).consistent(),
{
}

/// The last holder that leaves frees the lock, and then the sleepers are woken.
pub proof fn law_last_holder_frees_the_lock(word: usize)
    ensures
        decode(word) == (RwView { writer: false, readers: 0 }) <==> word == UNLOCKED,
{
}

/// A word is made of its parts: one for a writer and two for each reader.
pub proof fn law_word_is_made_of_its_parts(word: usize)
    ensures
        word == ONE_READER * decode(word).readers + (if decode(word).writer {
            ONE_WRITER as int
        } else {
            0
        }),
{
}

} // verus!
