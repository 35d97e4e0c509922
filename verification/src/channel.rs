//! The channel through which traffic is reported.
use crate::summary::{Event, Received};
use tokio::sync::mpsc::{Receiver, Sender};
use vstd::prelude::*;

verus! {

/// A channel of events, to its senders.
#[verifier::external_type_specification]
#[verifier::external_body]
#[verifier::reject_recursive_types(T)]
pub struct ExSender<T>(tokio::sync::mpsc::Sender<T>);

/// A channel of events, to its receiver.
#[verifier::external_type_specification]
#[verifier::external_body]
#[verifier::reject_recursive_types(T)]
pub struct ExReceiver<T>(tokio::sync::mpsc::Receiver<T>);

/// How many events the channel of `tx` was made to hold.
pub uninterp spec fn capacity(tx: Sender<Event>) -> nat;

/// The channel that `tx` feeds.
pub uninterp spec fn fed(tx: Sender<Event>) -> int;

/// The channel that `rx` drains.
pub uninterp spec fn drained(rx: Receiver<Event>) -> int;

/// What `rx` has given so far, in its order.
pub uninterp spec fn given(rx: Receiver<Event>) -> Seq<Received>;

/// One attempt to put an event into a channel. There is none that was not made.
#[derive(Clone, Copy)]
pub struct Attempt {
    channel: Ghost<int>,
    event: Event,
    taken: bool,
}

impl Attempt {
    /// The channel that the event was handed to.
    pub closed spec fn to(self) -> int {
        self.channel@
    }

    /// The event.
    pub closed spec fn what(self) -> Event {
        self.event
    }

    /// Whether the channel took it.
    pub closed spec fn succeeded(self) -> bool {
        self.taken
    }

    /// The event that was handed to the channel.
    pub fn event(&self) -> (ev: Event)
        ensures
            ev == self.what(),
    {
        self.event
    }

    /// Whether the channel took the event.
    pub fn taken(&self) -> (yes: bool)
        ensures
            yes == self.succeeded(),
    {
        self.taken
    }
}

/// `tokio::sync::mpsc::channel`: the two ends of one channel that holds so many events,
/// of which its receiver has given none. No room, and room for more than an eighth of
/// what a `usize` counts, make it panic.
#[verifier::external_body]
pub(crate) fn open_channel(size: usize) -> (ends: (Sender<Event>, Receiver<Event>))
    requires
        0 < size <= usize::MAX / 8,
    ensures
        capacity(ends.0) == size,
        fed(ends.0) == drained(ends.1),
        given(ends.1) == Seq::<Received>::empty(),
{
    tokio::sync::mpsc::channel(size)
}

/// `tokio::sync::mpsc::Sender::clone`: one more sender of the same channel.
#[verifier::external_body]
pub(crate) fn clone_sender(tx: &Sender<Event>) -> (copy: Sender<Event>)
    ensures
        capacity(copy) == capacity(*tx),
        fed(copy) == fed(*tx),
{
    tx.clone()
}

/// `tokio::sync::mpsc::Sender::try_send`: hands the event to the channel. Whether the
/// channel takes it depends on what it holds and on whether its receiver still exists;
/// nothing is claimed of that.
#[verifier::external_body]
pub(crate) fn try_send(tx: &Sender<Event>, ev: Event) -> (attempt: Attempt)
    ensures
        attempt.to() == fed(*tx),
        attempt.what() == ev,
{
    Attempt { channel: Ghost(fed(*tx)), event: ev, taken: tx.try_send(ev).is_ok() }
}

/// `tokio::sync::mpsc::Receiver::try_recv`: what the channel has to give, which is
/// then given. What that is depends on the senders; all that is claimed of it is that
/// nothing comes once the channel was disconnected.
#[verifier::external_body]
pub(crate) fn try_recv(rx: &mut Receiver<Event>) -> (received: Received)
    ensures
        given(*final(rx)) == given(*old(rx)).push(received),
        drained(*final(rx)) == drained(*old(rx)),
        given(*old(rx)).len() > 0 && given(*old(rx)).last() == Received::Disconnected ==> received
            == Received::Disconnected,
{
    match rx.try_recv() {
        Ok(ev) => Received::Event(ev),
        Err(tokio::sync::mpsc::error::TryRecvError::Empty) => Received::Empty,
        Err(tokio::sync::mpsc::error::TryRecvError::Disconnected) => Received::Disconnected,
    }
}

} // verus!
