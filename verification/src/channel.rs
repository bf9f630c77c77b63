//! An unbounded first-in, first-out channel.
//!
//! The channel is a plain value: whoever holds `&mut` to it may send or
//! receive. Sharing it between threads is the caller's business (a lock around
//! it makes the dequeue step the only critical section). A receive never waits:
//! on an empty channel it reports `Empty`, and the caller decides whether to
//! wait and try again.

use std::collections::VecDeque;
use vstd::prelude::*;

verus! {

/// Why a receive attempt handed out no message.
#[derive(Clone, Copy, Debug, PartialEq, Eq, Structural)]
pub enum TryRecvError {
    /// Nothing is queued, but the sending side is still there.
    Empty,
    /// Nothing is queued and the sending side is gone: nothing will ever come.
    Disconnected,
}

/// A message that could not be sent, handed back to the sender.
#[derive(Debug)]
pub struct SendError<T>(pub T);

/// The queue of messages in flight, oldest first, and whether the sending side
/// still exists.
pub struct Channel<T> {
    queue: VecDeque<T>,
    open: bool,
}

impl<T> View for Channel<T> {
    type V = Seq<T>;

    /// The messages in flight, oldest first.
    closed spec fn view(&self) -> Seq<T> {
        self.queue@
    }
}

impl<T> Channel<T> {
    /// Whether the sending side still exists.
    pub closed spec fn spec_is_open(&self) -> bool {
        self.open
    }

    /// An empty channel with a live sending side.
    pub fn new() -> (channel: Self)
        ensures
            channel@ == Seq::<T>::empty(),
            channel.is_open(),
    {
        Channel { queue: VecDeque::new(), open: true }
    }

    /// Whether the sending side still exists.
    #[verifier::when_used_as_spec(spec_is_open)]
    pub fn is_open(&self) -> (open: bool)
        ensures
            open == self.spec_is_open(),
    {
        self.open
    }

    /// The number of messages in flight.
    pub fn len(&self) -> (n: usize)
        ensures
            n == self@.len(),
    {
        self.queue.len()
    }

    /// Whether no message is in flight.
    pub fn is_empty(&self) -> (empty: bool)
        ensures
            empty == (self@.len() == 0),
    {
        self.queue.len() == 0
    }

    /// Appends `message` behind everything already in flight. Fails, handing the
    /// message back and leaving the channel untouched, exactly when the sending
    /// side is gone.
    pub fn send(&mut self, message: T) -> (sent: Result<(), SendError<T>>)
        ensures
            final(self).is_open() == old(self).is_open(),
            old(self).is_open() ==> sent is Ok && final(self)@ == old(self)@.push(message),
            !old(self).is_open() ==> sent == Err::<(), SendError<T>>(SendError(message))
                && final(self)@ == old(self)@,
    {
        if self.open {
            self.queue.push_back(message);
            Ok(())
        } else {
            Err(SendError(message))
        }
    }

    /// Takes the oldest message in flight, if there is one. Messages that were
    /// sent before the sending side went away are still delivered; only an
    /// empty channel reports `Empty` (sender alive) or `Disconnected` (sender
    /// gone).
    pub fn try_recv(&mut self) -> (received: Result<T, TryRecvError>)
        ensures
            final(self).is_open() == old(self).is_open(),
            old(self)@.len() > 0 ==> received == Ok::<T, TryRecvError>(old(self)@[0])
                && final(self)@ == old(self)@.drop_first(),
            old(self)@.len() == 0 ==> final(self)@ == old(self)@ && received == Err::<
                T,
                TryRecvError,
            >(if old(self).is_open() { TryRecvError::Empty } else { TryRecvError::Disconnected }),
    {
        match self.queue.pop_front() {
            Some(message) => Ok(message),
            None => {
                if self.open {
                    Err(TryRecvError::Empty)
                } else {
                    Err(TryRecvError::Disconnected)
                }
            },
        }
    }

    /// Releases the sending side. Messages already in flight stay receivable;
    /// later sends fail.
    pub fn close(&mut self)
        ensures
            !final(self).is_open(),
            final(self)@ == old(self)@,
    {
        self.open = false;
    }
}

} // verus!
