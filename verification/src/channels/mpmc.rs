//! A channel with many senders and many receivers.
use crate::collections::atomic_vec::AtomicVec;
use crate::primitives::attempt::Notify;
use crate::primitives::smutex;
use crate::primitives::smutex::SMutex;
use vstd::prelude::*;

verus! {

/// A channel as callers see it.
#[verifier::ext_equal]
pub struct ChannelView<T> {
    /// The messages from the first one to be received to the last one sent.
    pub messages: Seq<T>,
    /// How many messages may wait; 0 stands for any number.
    pub bounded: usize,
    /// The channel has been closed.
    pub closed: bool,
    /// Handles to the channel.
    pub refs: nat,
}

impl<T> ChannelView<T> {
    /// A message may be sent: the channel is open and not full.
    pub open spec fn admits(self) -> bool {
        !self.closed && (self.bounded == 0 || self.messages.len() < self.bounded)
    }

    /// The channel after a message has been sent.
    pub open spec fn sent(self, value: T) -> ChannelView<T> {
        ChannelView { messages: self.messages.push(value), ..self }
    }

    /// The channel after its first message, if there is one, has been received.
    pub open spec fn received(self) -> ChannelView<T> {
        ChannelView {
            messages: if self.messages.len() > 0 {
                self.messages.skip(1)
            } else {
                self.messages
            },
            ..self
        }
    }
}

/// What a receiver gets.
#[derive(Debug, PartialEq, Eq)]
pub enum Received<T> {
    /// A message.
    Message(T),
    /// There is no message and will be none.
    Closed,
    /// There is no message; the receiver sleeps and tries again once woken.
    MustWait,
}

/// A channel, which its handles share. Each call is one critical section.
pub struct Mpmc<T> {
    buffer: AtomicVec<T>,
    mutex: SMutex,
    ref_count: usize,
    bounded: usize,
    closed: bool,
}

impl<T> View for Mpmc<T> {
    type V = ChannelView<T>;

    closed spec fn view(&self) -> ChannelView<T> {
        ChannelView {
            messages: self.buffer@.items,
            bounded: self.bounded,
            closed: self.closed,
            refs: self.ref_count as nat,
        }
    }
}

impl<T> Mpmc<T> {
    /// The buffer is in order, and between the calls nobody is in it.
    pub closed spec fn wf(&self) -> bool {
        &&& self.buffer.wf()
        &&& self.buffer@.word == smutex::UNLOCKED
        &&& self.buffer@.pending is None
        &&& self.mutex@ == smutex::UNLOCKED
    }

    /// A channel in which any number of messages may wait.
    pub fn new() -> (channel: Mpmc<T>)
        ensures
            channel.wf(),
            channel@ == (ChannelView {
                messages: Seq::<T>::empty(),
                bounded: 0,
                closed: false,
                refs: 1,
            }),
    {
        Mpmc {
            buffer: AtomicVec::new(),
            mutex: SMutex::new(),
            ref_count: 1,
            bounded: 0,
            closed: false,
        }
    }

    /// A channel in which `n` messages may wait, or any number if that is 0.
    pub fn bounded(n: usize) -> (channel: Mpmc<T>)
        ensures
            channel.wf(),
            channel@ == (ChannelView {
                messages: Seq::<T>::empty(),
                bounded: n,
                closed: false,
                refs: 1,
            }),
    {
        let mut c: Mpmc<T> = Self::new();
        c.bounded = n;
        c
    }

    /// Whether a message may be sent.
    pub fn admits(&self) -> (admits: bool)
        requires
            self.wf(),
        ensures
            admits == self@.admits(),
    {
        if self.closed {
            return false;
        }
        !(self.bounded > 0 && self.buffer.len() >= self.bounded)
    }

    /// Adds a message that has been admitted; one receiver is to be woken.
    pub fn enqueue(&mut self, value: T) -> (wake: Notify)
        requires
            old(self).wf(),
            old(self)@.messages.len() < usize::MAX - 1,
        ensures
            final(self).wf(),
            final(self)@ == old(self)@.sent(value),
            wake == Notify::One,
    {
        self.mutex.raw_lock();
        let _ = self.buffer.push(value);
        self.mutex.raw_unlock();
        Notify::One
    }

    /// Sends a message, which wakes one receiver; gives it back if the channel
    /// has been closed or is full.
    pub fn send(&mut self, value: T) -> (r: Result<(), T>)
        requires
            old(self).wf(),
            old(self)@.messages.len() < usize::MAX - 1,
        ensures
            final(self).wf(),
            r == (if old(self)@.admits() {
                Ok(())
            } else {
                Err(value)
            }),
            final(self)@ == (if old(self)@.admits() {
                old(self)@.sent(value)
            } else {
                old(self)@
            }),
    {
        if !self.admits() {
            return Err(value);
        }
        self.enqueue(value);
        Ok(())
    }

    /// The first message, if there is one.
    pub fn try_recv(&mut self) -> (message: Option<T>)
        requires
            old(self).wf(),
            old(self)@.messages.len() < usize::MAX,
        ensures
            final(self).wf(),
            message == (if old(self)@.messages.len() > 0 {
                Some(old(self)@.messages[0])
            } else {
                None
            }),
            final(self)@ == old(self)@.received(),
    {
        self.mutex.raw_lock();
        let message: Option<T> = self.buffer.pop();
        self.mutex.raw_unlock();
        message
    }

    /// The first message; without one, the receiver is told that the channel has
    /// been closed, or sleeps.
    pub fn recv(&mut self) -> (r: Received<T>)
        requires
            old(self).wf(),
            old(self)@.messages.len() < usize::MAX,
        ensures
            final(self).wf(),
            r == (if old(self)@.messages.len() > 0 {
                Received::Message(old(self)@.messages[0])
            } else if old(self)@.closed {
                Received::Closed
            } else {
                Received::MustWait
            }),
            final(self)@ == old(self)@.received(),
    {
        match self.try_recv() {
            Some(message) => Received::Message(message),
            None => {
                if self.closed {
                    Received::Closed
                } else {
                    Received::MustWait
                }
            },
        }
    }

    /// Closes the channel; every receiver is to be woken.
    pub fn close(&mut self) -> (wake: Notify)
        requires
            old(self).wf(),
        ensures
            final(self).wf(),
            final(self)@ == (ChannelView { closed: true, ..old(self)@ }),
            wake == Notify::All,
    {
        self.mutex.raw_lock();
        self.closed = true;
        self.mutex.raw_unlock();
        Notify::All
    }

    /// One more handle shares the channel.
    pub fn clone_ref(&mut self)
        requires
            old(self).wf(),
            old(self)@.refs < usize::MAX,
        ensures
            final(self).wf(),
            final(self)@ == (ChannelView { refs: old(self)@.refs + 1, ..old(self)@ }),
    {
        self.ref_count = self.ref_count + 1;
    }

    /// Gives one handle up; tells whether it was the last one, so that the
    /// channel is to be freed with its messages.
    pub fn drop_ref(&mut self) -> (last: bool)
        requires
            old(self).wf(),
            old(self)@.refs > 0,
        ensures
            final(self).wf(),
            final(self)@ == (ChannelView { refs: (old(self)@.refs - 1) as nat, ..old(self)@ }),
            last == (old(self)@.refs == 1),
    {
        self.ref_count = self.ref_count - 1;
        self.ref_count == 0
    }
}

/// The channel after the messages `values` have been sent one after the other.
pub open spec fn sent_all<T>(channel: ChannelView<T>, values: Seq<T>) -> ChannelView<T>
    decreases values.len(),
{
    if values.len() == 0 {
        channel
    } else {
        sent_all(channel, values.drop_last()).sent(values.last())
    }
}

/// Every message is received once, in the order in which the messages were
/// sent: what is sent joins the end of what waits.
pub proof fn law_messages_keep_their_order<T>(channel: ChannelView<T>, values: Seq<T>)
    ensures
        sent_all(channel, values).messages == channel.messages + values,
        sent_all(channel, values).closed == channel.closed,
    decreases values.len(),
{
    if values.len() == 0 {
        assert(channel.messages + values =~= channel.messages);
    } else {
        law_messages_keep_their_order(channel, values.drop_last());
        assert(channel.messages + values =~= (channel.messages + values.drop_last()).push(
            values.last(),
        ));
    }
}

/// A send that is admitted never leaves more messages than the bound.
pub proof fn law_bound_is_kept<T>(channel: ChannelView<T>, value: T)
    requires
        channel.bounded > 0,
        channel.messages.len() <= channel.bounded,
    ensures
        channel.admits() ==> channel.sent(value).messages.len() <= channel.bounded,
        channel.received().messages.len() <= channel.bounded,
{
}

/// A closed channel admits nothing, and receiving does not open it: the messages
/// that wait are still received, and then nothing is.
pub proof fn law_closed_channel_only_drains<T>(channel: ChannelView<T>)
    requires
        channel.closed,
    ensures
        !channel.admits(),
        channel.received().closed,
        channel.messages.len() > 0 ==> channel.received().messages.len() + 1
            == channel.messages.len(),
{
}

/// A message is admitted by an open channel without a bound, whatever number of
/// messages wait, and by an open channel with a bound exactly if fewer messages
/// than that wait.
pub proof fn law_admission<T>(channel: ChannelView<T>)
    ensures
        channel.closed ==> !channel.admits(),
        !channel.closed && channel.bounded == 0 ==> channel.admits(),
        !channel.closed && channel.bounded > 0 ==> (channel.admits() <==> channel.messages.len()
            < channel.bounded),
{
}

/// Sending adds the message behind those that wait, receiving takes the first one
/// away, and neither changes anything else of the channel.
pub proof fn law_sending_and_receiving_change_only_the_messages<T>(
    channel: ChannelView<T>,
    value: T,
)
    ensures
        channel.sent(value) == (ChannelView { messages: channel.messages.push(value), ..channel }),
        channel.messages.len() == 0 ==> channel.received() == channel,
        channel.messages.len() > 0 ==> channel.received() == (ChannelView {
            messages: channel.messages.subrange(1, channel.messages.len() as int),
            ..channel
        }),
        channel.messages.len() == 0 ==> channel.sent(value).received() == channel,
        channel.messages.len() > 0 ==> channel.sent(value).received()
            == channel.received().sent(value),
{
    assert(channel.sent(value).received().messages =~= (if channel.messages.len() == 0 {
        channel.messages
    } else {
        channel.received().sent(value).messages
    }));
    if channel.messages.len() > 0 {
        assert(channel.received().messages =~= channel.messages.subrange(
            1,
            channel.messages.len() as int,
        ));
    }
}

/// As many messages as the bound says are admitted one after the other by a new
/// channel, and no more until one is received.
pub proof fn law_a_full_channel_admits_after_a_receive<T>(channel: ChannelView<T>, value: T)
    requires
        !channel.closed,
        channel.bounded > 0,
        channel.messages.len() == channel.bounded,
    ensures
        !channel.admits(),
        channel.received().admits(),
        !channel.received().sent(value).admits(),
{
}

} // verus!
