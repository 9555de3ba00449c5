//! Channel handles with an explicit close.
//!
//! The queue itself, its blocking and its thread safety are those of
//! `crossbeam::channel`. The handles here add the one thing this toolkit
//! insists on: a sender is closed by a call, not by going out of scope, and
//! a closed handle refuses to send.

use crate::error::PipelineError;
use vstd::prelude::*;

verus! {

/// `crossbeam::channel::Sender`. Nothing is known of its inside.
#[verifier::external_type_specification]
#[verifier::external_body]
#[verifier::reject_recursive_types(T)]
pub struct ExSender<T>(crossbeam::channel::Sender<T>);

/// `crossbeam::channel::Receiver`. Nothing is known of its inside.
#[verifier::external_type_specification]
#[verifier::external_body]
#[verifier::reject_recursive_types(T)]
pub struct ExReceiver<T>(crossbeam::channel::Receiver<T>);

/// The largest capacity a bounded channel is opened with: the queue keeps
/// twice the next power of two above the capacity in one `usize`, which has
/// to fit where a `usize` has 32 bits.
pub const MAX_CAPACITY: usize = 0x3fff_ffff;

/// What a send that does not wait came to.
#[derive(Clone, Copy, Debug, PartialEq, Eq, Structural)]
pub enum SendAttempt {
    /// The value is in the channel.
    Sent,
    /// The channel is at capacity; a blocking send would wait.
    Full,
    /// The handle is closed or no receiver is left.
    Closed,
}

/// What a receive that does not wait came to.
#[derive(Debug)]
pub enum ReceiveAttempt<T> {
    /// The next value in the channel.
    Item(T),
    /// Nothing is buffered, but a sender may still send.
    Empty,
    /// Nothing is buffered and every sender is closed.
    EndOfStream,
}

/// How full a channel was at one moment.
#[derive(Clone, Copy, Debug, PartialEq, Eq, Structural)]
pub struct Occupancy {
    /// Values sent and not yet received.
    pub queued: usize,
    /// The capacity, `None` for an unbounded channel.
    pub capacity: Option<usize>,
}

/// `crossbeam::channel::bounded`: a channel that holds at most `capacity`
/// values. It panics on a capacity too large for its bookkeeping, which
/// the bound on `capacity` excludes. Nothing is claimed of the handles.
#[verifier::external_body]
fn open_bounded<T>(capacity: usize) -> (ends: (
    crossbeam::channel::Sender<T>,
    crossbeam::channel::Receiver<T>,
))
    requires
        capacity <= MAX_CAPACITY,
{
    crossbeam::channel::bounded(capacity)
}

/// `crossbeam::channel::unbounded`: a channel without a capacity. Nothing
/// is claimed of the handles.
#[verifier::external_body]
fn open_unbounded<T>() -> (ends: (crossbeam::channel::Sender<T>, crossbeam::channel::Receiver<T>)) {
    crossbeam::channel::unbounded()
}

/// `Sender::send`: waits for room, then reports whether the value went into
/// the channel. It does not when every receiver is gone. Which of the two
/// happens depends on the other threads, so nothing is claimed.
#[verifier::external_body]
fn send_blocking<T>(sender: &crossbeam::channel::Sender<T>, value: T) -> (sent: bool) {
    sender.send(value).is_ok()
}

/// `Sender::try_send`: one of its three outcomes, without the value.
#[verifier::external_body]
fn send_now<T>(sender: &crossbeam::channel::Sender<T>, value: T) -> (attempt: SendAttempt) {
    match sender.try_send(value) {
        Ok(()) => SendAttempt::Sent,
        Err(crossbeam::channel::TrySendError::Full(_)) => SendAttempt::Full,
        Err(crossbeam::channel::TrySendError::Disconnected(_)) => SendAttempt::Closed,
    }
}

/// `Sender::clone`: another handle on the same channel.
#[verifier::external_body]
fn another_sender<T>(sender: &crossbeam::channel::Sender<T>) -> (copy:
    crossbeam::channel::Sender<T>) {
    sender.clone()
}

/// `Receiver::recv`: waits for a value; `None` once the channel is empty
/// and every sender is gone.
#[verifier::external_body]
fn receive_blocking<T>(receiver: &crossbeam::channel::Receiver<T>) -> (value: Option<T>) {
    receiver.recv().ok()
}

/// `Receiver::try_recv`: one of its three outcomes.
#[verifier::external_body]
fn receive_now<T>(receiver: &crossbeam::channel::Receiver<T>) -> (attempt: ReceiveAttempt<T>) {
    match receiver.try_recv() {
        Ok(value) => ReceiveAttempt::Item(value),
        Err(crossbeam::channel::TryRecvError::Empty) => ReceiveAttempt::Empty,
        Err(crossbeam::channel::TryRecvError::Disconnected) => ReceiveAttempt::EndOfStream,
    }
}

/// `Receiver::clone`: another handle on the same channel.
#[verifier::external_body]
fn another_receiver<T>(receiver: &crossbeam::channel::Receiver<T>) -> (copy:
    crossbeam::channel::Receiver<T>) {
    receiver.clone()
}

/// `Receiver::len`: how many values the channel holds at this moment.
/// What other threads do decides it, so nothing is claimed.
#[verifier::external_body]
fn queued_now<T>(receiver: &crossbeam::channel::Receiver<T>) -> (queued: usize) {
    receiver.len()
}

/// The sending end of a channel.
///
/// It keeps count, for the proofs only, of the values that it has put into
/// the channel.
#[verifier::reject_recursive_types(T)]
pub struct SenderHandle<T> {
    inner: Option<crossbeam::channel::Sender<T>>,
    accepted: Ghost<Seq<T>>,
}

/// The receiving end of a channel.
///
/// It knows the capacity that its channel was opened with. It remembers
/// whether it has come to the end of the stream: from then on it yields
/// nothing more and asks the channel no more. It also keeps count, for the
/// proofs only, of the values that it has taken out of the channel.
#[verifier::reject_recursive_types(T)]
pub struct ReceiverHandle<T> {
    inner: crossbeam::channel::Receiver<T>,
    capacity: Option<usize>,
    ended: bool,
    taken: Ghost<Seq<T>>,
}

/// Opens a channel that holds at most `capacity` values.
pub fn bounded<T>(capacity: usize) -> (ends: (SenderHandle<T>, ReceiverHandle<T>))
    requires
        1 <= capacity <= MAX_CAPACITY,
    ensures
        !ends.0.is_closed(),
        ends.0.accepted().len() == 0,
        ends.1.taken().len() == 0,
        !ends.1.ended(),
        ends.1.capacity() == Some(capacity),
{
    let (sender, receiver) = open_bounded(capacity);
    (
        SenderHandle { inner: Some(sender), accepted: Ghost(Seq::empty()) },
        ReceiverHandle {
            inner: receiver,
            capacity: Some(capacity),
            ended: false,
            taken: Ghost(Seq::empty()),
        },
    )
}

/// Opens a channel without a capacity: a send on it never waits.
pub fn unbounded<T>() -> (ends: (SenderHandle<T>, ReceiverHandle<T>))
    ensures
        !ends.0.is_closed(),
        ends.0.accepted().len() == 0,
        ends.1.taken().len() == 0,
        !ends.1.ended(),
        ends.1.capacity() is None,
{
    let (sender, receiver) = open_unbounded();
    (
        SenderHandle { inner: Some(sender), accepted: Ghost(Seq::empty()) },
        ReceiverHandle {
            inner: receiver,
            capacity: None,
            ended: false,
            taken: Ghost(Seq::empty()),
        },
    )
}

impl<T> SenderHandle<T> {
    /// Whether this handle has been closed.
    pub closed spec fn closed(&self) -> bool {
        self.inner is None
    }

    /// The values that this handle has put into the channel, in order.
    pub closed spec fn accepted(&self) -> Seq<T> {
        self.accepted@
    }

    /// Whether this handle has been closed.
    #[verifier::when_used_as_spec(closed)]
    pub fn is_closed(&self) -> (closed: bool)
        ensures
            closed == self.closed(),
    {
        self.inner.is_none()
    }

    /// Sends `value`, waiting while the channel is at capacity.
    ///
    /// A closed handle sends nothing and fails at once. An open one hands
    /// the value to the channel and fails only when no receiver is left.
    /// The only failure is `ChannelClosed`; a value that was sent is the
    /// last that the handle has put into the channel.
    pub fn send(&mut self, value: T) -> (sent: Result<(), PipelineError>)
        ensures
            final(self).is_closed() == old(self).is_closed(),
            old(self).is_closed() ==> sent is Err,
            sent matches Err(e) ==> e == PipelineError::ChannelClosed && final(self).accepted()
                == old(self).accepted(),
            sent is Ok ==> final(self).accepted() == old(self).accepted().push(value),
    {
        let ghost handed = value;
        let went = match &self.inner {
            None => false,
            Some(sender) => send_blocking(sender, value),
        };
        if went {
            self.accepted = Ghost(self.accepted@.push(handed));
            Ok(())
        } else {
            Err(PipelineError::ChannelClosed)
        }
    }

    /// Sends `value` if that needs no waiting. A closed handle reports
    /// `Closed`; a value that was sent is the last that the handle has put
    /// into the channel.
    pub fn try_send(&mut self, value: T) -> (attempt: SendAttempt)
        ensures
            final(self).is_closed() == old(self).is_closed(),
            old(self).is_closed() ==> attempt == SendAttempt::Closed,
            attempt == SendAttempt::Sent ==> final(self).accepted() == old(
                self,
            ).accepted().push(value),
            attempt != SendAttempt::Sent ==> final(self).accepted() == old(self).accepted(),
    {
        let ghost handed = value;
        let attempt = match &self.inner {
            None => SendAttempt::Closed,
            Some(sender) => send_now(sender, value),
        };
        if attempt == SendAttempt::Sent {
            self.accepted = Ghost(self.accepted@.push(handed));
        }
        attempt
    }

    /// Closes this handle: it gives up its hold on the channel and sends
    /// nothing from now on. Closing a closed handle changes nothing.
    pub fn close(&mut self)
        ensures
            final(self).is_closed(),
            final(self).accepted() == old(self).accepted(),
            old(self).is_closed() ==> *final(self) == *old(self),
    {
        self.inner = None;
    }

    /// Another handle on the same channel, closed if this one is, that has
    /// not sent anything yet.
    pub fn clone_handle(&self) -> (copy: SenderHandle<T>)
        ensures
            copy.is_closed() == self.is_closed(),
            copy.accepted().len() == 0,
    {
        match &self.inner {
            None => SenderHandle { inner: None, accepted: Ghost(Seq::empty()) },
            Some(sender) => SenderHandle {
                inner: Some(another_sender(sender)),
                accepted: Ghost(Seq::empty()),
            },
        }
    }
}

impl<T> ReceiverHandle<T> {
    /// The values that this handle has taken out of the channel, in order.
    pub closed spec fn taken(&self) -> Seq<T> {
        self.taken@
    }

    /// Whether this handle has come to the end of the stream.
    pub closed spec fn ended(&self) -> bool {
        self.ended
    }

    /// The capacity that the channel was opened with, `None` for a channel
    /// without one.
    pub closed spec fn capacity(&self) -> Option<usize> {
        self.capacity
    }

    /// Whether this handle has come to the end of the stream.
    #[verifier::when_used_as_spec(ended)]
    pub fn has_ended(&self) -> (ended: bool)
        ensures
            ended == self.ended(),
    {
        self.ended
    }

    /// The next value, waiting while the channel is empty and a sender is
    /// open; `None` is the end of the stream.
    ///
    /// A value that is returned is the last that the handle has taken. With
    /// `None` the handle has come to the end of the stream, and it stays
    /// there: every later call returns `None` at once.
    pub fn receive(&mut self) -> (value: Option<T>)
        ensures
            old(self).ended() ==> value is None,
            value matches Some(v) ==> final(self).taken() == old(self).taken().push(v),
            value is None ==> final(self).taken() == old(self).taken(),
            final(self).ended() == (value is None),
            final(self).capacity() == old(self).capacity(),
    {
        if self.ended {
            return None;
        }
        let value = receive_blocking(&self.inner);
        if value.is_none() {
            self.ended = true;
        }
        proof {
            if value is Some {
                self.taken@ = self.taken@.push(value->Some_0);
            }
        }
        value
    }

    /// The next value if one is buffered.
    ///
    /// A value that is returned is the last that the handle has taken.
    /// With `EndOfStream` the handle has come to the end of the stream, and
    /// it stays there: every later call reports `EndOfStream` at once.
    pub fn try_receive(&mut self) -> (attempt: ReceiveAttempt<T>)
        ensures
            old(self).ended() ==> attempt is EndOfStream,
            attempt matches ReceiveAttempt::Item(v) ==> final(self).taken() == old(
                self,
            ).taken().push(v),
            !(attempt is Item) ==> final(self).taken() == old(self).taken(),
            final(self).ended() == (attempt is EndOfStream),
            final(self).capacity() == old(self).capacity(),
    {
        if self.ended {
            return ReceiveAttempt::EndOfStream;
        }
        let attempt = receive_now(&self.inner);
        match &attempt {
            ReceiveAttempt::EndOfStream => {
                self.ended = true;
            },
            _ => {},
        }
        proof {
            if attempt is Item {
                self.taken@ = self.taken@.push(attempt->Item_0);
            }
        }
        attempt
    }

    /// Receives until the end of the stream, or until `limit` values have
    /// been taken, and returns them in the order they came.
    ///
    /// What is returned is what the handle has taken in this call. Fewer
    /// than `limit` values are returned only at the end of the stream, where
    /// the handle then stays: a handle that has come there returns nothing.
    pub fn iterate(&mut self, limit: usize) -> (items: Vec<T>)
        ensures
            items@.len() <= limit,
            final(self).taken() == old(self).taken() + items@,
            old(self).ended() ==> items@.len() == 0,
            final(self).ended() == (old(self).ended() || items@.len() < limit),
            final(self).capacity() == old(self).capacity(),
    {
        let mut items: Vec<T> = Vec::new();
        proof {
            assert(self.taken() + items@ =~= self.taken());
        }
        while items.len() < limit
            invariant_except_break
                self.ended() == old(self).ended(),
                old(self).ended() ==> items@.len() == 0,
            invariant
                items@.len() <= limit,
                self.taken() == old(self).taken() + items@,
                self.capacity() == old(self).capacity(),
            ensures
                old(self).ended() ==> items@.len() == 0,
                self.ended() == (old(self).ended() || items@.len() < limit),
            decreases limit - items@.len(),
        {
            match self.receive() {
                None => {
                    break ;
                },
                Some(value) => {
                    proof {
                        assert(old(self).taken() + items@.push(value) =~= (old(self).taken()
                            + items@).push(value));
                    }
                    items.push(value);
                },
            }
        }
        items
    }

    /// How full the channel is right now: the capacity that it was opened
    /// with, and how many values it holds.
    ///
    /// The count is the one that the channel reports at this moment, held
    /// to the capacity: a bounded channel is never reported to hold more
    /// than it was opened with.
    pub fn occupancy(&self) -> (seen: Occupancy)
        ensures
            seen.capacity == self.capacity(),
            seen.capacity matches Some(c) ==> seen.queued <= c,
    {
        let reported = queued_now(&self.inner);
        let queued = match self.capacity {
            Some(capacity) => if reported <= capacity {
                reported
            } else {
                capacity
            },
            None => reported,
        };
        Occupancy { queued, capacity: self.capacity }
    }

    /// Another handle on the same channel, that has not taken anything
    /// yet and asks the channel afresh. Each value goes to one of the
    /// handles, never to both.
    pub fn clone_handle(&self) -> (copy: ReceiverHandle<T>)
        ensures
            copy.taken().len() == 0,
            !copy.ended(),
            copy.capacity() == self.capacity(),
    {
        ReceiverHandle {
            inner: another_receiver(&self.inner),
            capacity: self.capacity,
            ended: false,
            taken: Ghost(Seq::empty()),
        }
    }

    /// Gives up this handle's hold on the channel.
    pub fn release(self) {
    }
}

} // verus!
