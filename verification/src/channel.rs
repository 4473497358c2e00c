//! Queues that are held in the channels of `crossbeam_channel`.

use vstd::prelude::*;
use crossbeam_channel::{Receiver, Sender};
use crate::status::StatusEvent;

verus! {

/// The sending end of a channel of `crossbeam_channel`.
#[verifier::external_type_specification]
#[verifier::external_body]
#[verifier::reject_recursive_types(T)]
pub struct ExSender<T>(crossbeam_channel::Sender<T>);

/// The receiving end of a channel of `crossbeam_channel`.
#[verifier::external_type_specification]
#[verifier::external_body]
#[verifier::reject_recursive_types(T)]
pub struct ExReceiver<T>(crossbeam_channel::Receiver<T>);

/// `Sender::clone` gives another sending end of the same channel. Nothing is claimed of it.
pub assume_specification<T>[ <crossbeam_channel::Sender<T> as std::clone::Clone>::clone ](
    sender: &crossbeam_channel::Sender<T>,
) -> crossbeam_channel::Sender<T>;

/// What a channel gave without waiting.
pub enum Received<T> {
    Item(T),
    Empty,
    Disconnected,
}

/// A queue of items, held in an unbounded channel.
///
/// A `Channel` owns the only sending end and the only receiving end of its channel and never
/// hands them out, so that nothing else adds or takes items: what the channel holds is what was
/// sent through the `Channel` and not yet received through it. Either end can be dropped.
#[verifier::reject_recursive_types(T)]
pub struct Channel<T> {
    tx: Option<Sender<T>>,
    rx: Option<Receiver<T>>,
    queued: Ghost<Seq<T>>,
}

impl<T> Channel<T> {
    /// The items in the channel, in the order in which they leave it.
    pub closed spec fn view(&self) -> Seq<T> {
        self.queued@
    }

    /// The sending end is still there.
    pub closed spec fn sender_open(&self) -> bool {
        self.tx is Some
    }

    /// The receiving end is still there.
    pub closed spec fn receiver_open(&self) -> bool {
        self.rx is Some
    }

    /// Calls `crossbeam_channel::unbounded`, which gives the two ends of a new channel. Nothing is
    /// in it yet.
    #[verifier::external_body]
    pub(crate) fn new() -> (channel: Self)
        ensures
            channel@ == Seq::<T>::empty(),
            channel.sender_open(),
            channel.receiver_open(),
    {
        let (tx, rx) = crossbeam_channel::unbounded();
        Channel { tx: Some(tx), rx: Some(rx), queued: Ghost(Seq::empty()) }
    }

    /// Calls `Sender::send`. While the receiving end is there the item joins the end of the queue.
    /// Once that end was dropped the item is handed back and nothing is queued.
    #[verifier::external_body]
    pub(crate) fn send(&mut self, item: T) -> (sent: Result<(), T>)
        requires
            old(self).sender_open(),
        ensures
            final(self).sender_open(),
            final(self).receiver_open() == old(self).receiver_open(),
            sent is Ok <==> old(self).receiver_open(),
            sent is Ok ==> final(self)@ == old(self)@.push(item),
            sent is Err ==> sent->Err_0 == item && final(self)@ == old(self)@,
    {
        match &self.tx {
            Some(tx) => tx.send(item).map_err(|error| error.into_inner()),
            None => Err(item),
        }
    }

    /// Calls `Receiver::try_recv`, which takes the first item of the queue. Where there is none it
    /// tells whether the sending end is still there.
    #[verifier::external_body]
    pub(crate) fn try_recv(&mut self) -> (received: Received<T>)
        requires
            old(self).receiver_open(),
        ensures
            final(self).receiver_open(),
            final(self).sender_open() == old(self).sender_open(),
            received is Item <==> old(self)@.len() > 0,
            received is Item ==> received->Item_0 == old(self)@[0] && final(self)@
                == old(self)@.drop_first(),
            received !is Item ==> final(self)@ == old(self)@,
            received is Disconnected <==> old(self)@.len() == 0 && !old(self).sender_open(),
    {
        match self.rx.as_ref().map(|rx| rx.try_recv()) {
            Some(Ok(item)) => Received::Item(item),
            Some(Err(crossbeam_channel::TryRecvError::Empty)) => Received::Empty,
            Some(Err(crossbeam_channel::TryRecvError::Disconnected)) => Received::Disconnected,
            None => Received::Disconnected,
        }
    }

    /// Drops the sending end. What is queued stays.
    pub(crate) fn drop_sender(&mut self)
        ensures
            !final(self).sender_open(),
            final(self).receiver_open() == old(self).receiver_open(),
            final(self)@ == old(self)@,
    {
        self.tx = None;
    }

    /// Drops the receiving end. With it goes everything that is queued.
    pub(crate) fn drop_receiver(&mut self)
        ensures
            !final(self).receiver_open(),
            final(self).sender_open() == old(self).sender_open(),
            final(self)@ == Seq::<T>::empty(),
    {
        self.rx = None;
        self.queued = Ghost(Seq::empty());
    }

    /// Tells whether the sending end is still there.
    pub fn is_sender_open(&self) -> (open: bool)
        ensures
            open == self.sender_open(),
    {
        self.tx.is_some()
    }

    /// Tells whether the receiving end is still there.
    pub fn is_receiver_open(&self) -> (open: bool)
        ensures
            open == self.receiver_open(),
    {
        self.rx.is_some()
    }
}

/// The two ends belong to one channel: what is sent into `tx` can be received from `rx`.
pub uninterp spec fn ends_meet(tx: Sender<StatusEvent>, rx: Receiver<StatusEvent>) -> bool;

/// Calls `crossbeam_channel::unbounded` for events. The two ends that it gives belong to one
/// channel.
#[verifier::external_body]
pub(crate) fn status_channel() -> (ends: (Sender<StatusEvent>, Receiver<StatusEvent>))
    ensures
        ends_meet(ends.0, ends.1),
{
    crossbeam_channel::unbounded()
}

/// `Sender::send` was called on `tx` with `event`, and gave `sent`.
pub uninterp spec fn sending_gave(
    tx: Sender<StatusEvent>,
    event: StatusEvent,
    sent: Result<(), StatusEvent>,
) -> bool;

/// Calls `Sender::send` on a channel whose other end is held elsewhere. An event that cannot be
/// delivered is handed back; whether it can depends on the holder of that end. Where the channel
/// has a bound and is full, the call waits for that holder.
#[verifier::external_body]
pub(crate) fn send_event(tx: &Sender<StatusEvent>, event: StatusEvent) -> (sent: Result<
    (),
    StatusEvent,
>)
    ensures
        sending_gave(*tx, event, sent),
        sent is Err ==> sent->Err_0 == event,
{
    tx.send(event).map_err(|error| error.into_inner())
}

} // verus!
