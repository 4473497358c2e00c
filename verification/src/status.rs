//! Events on the life of a feeder, and where they are sent.

use vstd::prelude::*;
use crossbeam_channel::Sender;
use crate::channel::{send_event, sending_gave};
use crate::types::ReceiverId;

verus! {

/// What happened to a feeder or to one of its receivers.
#[derive(Debug, Clone, Copy, PartialEq, Eq, Structural)]
pub enum StatusEvent {
    ReceiverRegistered { receiver_id: ReceiverId },
    ReceiverDropped { receiver_id: ReceiverId, recovered: usize },
    GracefulShutdownStarted,
    Cancelled,
    NoMoreWork,
    SchedulerExited,
    Lagging { receiver_id: ReceiverId, requested: usize, received: usize },
    Recovered { receiver_id: ReceiverId },
}

/// A place that is told of every event, by one method for each kind.
pub trait StatusSink: Clone + Send + Sync + 'static {
    /// The sink was told of `event`. What that means is up to the sink; nothing by default.
    open spec fn notified(&self, event: StatusEvent) -> bool {
        true
    }

    fn receiver_registered(&self, receiver_id: ReceiverId)
        ensures
            self.notified(StatusEvent::ReceiverRegistered { receiver_id }),
    ;

    fn receiver_dropped(&self, receiver_id: ReceiverId, recovered: usize)
        ensures
            self.notified(StatusEvent::ReceiverDropped { receiver_id, recovered }),
    ;

    fn graceful_shutdown_started(&self)
        ensures
            self.notified(StatusEvent::GracefulShutdownStarted),
    ;

    fn cancelled(&self)
        ensures
            self.notified(StatusEvent::Cancelled),
    ;

    fn no_more_work(&self)
        ensures
            self.notified(StatusEvent::NoMoreWork),
    ;

    fn scheduler_exited(&self)
        ensures
            self.notified(StatusEvent::SchedulerExited),
    ;

    fn lagging(&self, receiver_id: ReceiverId, requested: usize, received: usize)
        ensures
            self.notified(StatusEvent::Lagging { receiver_id, requested, received }),
    ;

    fn recovered(&self, receiver_id: ReceiverId)
        ensures
            self.notified(StatusEvent::Recovered { receiver_id }),
    ;
}

/// Tells `sink` of `event`, by the method for its kind.
pub fn notify<S: StatusSink>(sink: &S, event: StatusEvent)
    ensures
        sink.notified(event),
{
    match event {
        StatusEvent::ReceiverRegistered { receiver_id } => sink.receiver_registered(receiver_id),
        StatusEvent::ReceiverDropped { receiver_id, recovered } => sink.receiver_dropped(
            receiver_id,
            recovered,
        ),
        StatusEvent::GracefulShutdownStarted => sink.graceful_shutdown_started(),
        StatusEvent::Cancelled => sink.cancelled(),
        StatusEvent::NoMoreWork => sink.no_more_work(),
        StatusEvent::SchedulerExited => sink.scheduler_exited(),
        StatusEvent::Lagging { receiver_id, requested, received } => sink.lagging(
            receiver_id,
            requested,
            received,
        ),
        StatusEvent::Recovered { receiver_id } => sink.recovered(receiver_id),
    }
}

/// The sink that ignores every event.
#[derive(Debug, Clone, Copy, PartialEq, Eq, Structural)]
pub struct NoStatus;

impl StatusSink for NoStatus {
    fn receiver_registered(&self, receiver_id: ReceiverId) {
    }

    fn receiver_dropped(&self, receiver_id: ReceiverId, recovered: usize) {
    }

    fn graceful_shutdown_started(&self) {
    }

    fn cancelled(&self) {
    }

    fn no_more_work(&self) {
    }

    fn scheduler_exited(&self) {
    }

    fn lagging(&self, receiver_id: ReceiverId, requested: usize, received: usize) {
    }

    fn recovered(&self, receiver_id: ReceiverId) {
    }
}

/// The sink that sends every event into a channel.
///
/// An event is lost where the other end of the channel is gone.
#[derive(Debug, Clone)]
pub struct ChannelStatus {
    tx: Sender<StatusEvent>,
}

impl ChannelStatus {
    /// The end of the channel that the events are sent into.
    pub closed spec fn sender(&self) -> Sender<StatusEvent> {
        self.tx
    }

    /// The sink that sends every event into `tx`.
    pub fn new(tx: Sender<StatusEvent>) -> (status: ChannelStatus)
        ensures
            status.sender() == tx,
    {
        ChannelStatus { tx }
    }
}

impl StatusSink for ChannelStatus {
    /// The event was sent into the channel.
    open spec fn notified(&self, event: StatusEvent) -> bool {
        exists|sent: Result<(), StatusEvent>| sending_gave(self.sender(), event, sent)
    }

    fn receiver_registered(&self, receiver_id: ReceiverId) {
        let sent = send_event(&self.tx, StatusEvent::ReceiverRegistered { receiver_id });
        assert(sending_gave(self.sender(), StatusEvent::ReceiverRegistered { receiver_id }, sent));
    }

    fn receiver_dropped(&self, receiver_id: ReceiverId, recovered: usize) {
        let event = StatusEvent::ReceiverDropped { receiver_id, recovered };
        let sent = send_event(&self.tx, event);
        assert(sending_gave(self.sender(), event, sent));
    }

    fn graceful_shutdown_started(&self) {
        let sent = send_event(&self.tx, StatusEvent::GracefulShutdownStarted);
        assert(sending_gave(self.sender(), StatusEvent::GracefulShutdownStarted, sent));
    }

    fn cancelled(&self) {
        let sent = send_event(&self.tx, StatusEvent::Cancelled);
        assert(sending_gave(self.sender(), StatusEvent::Cancelled, sent));
    }

    fn no_more_work(&self) {
        let sent = send_event(&self.tx, StatusEvent::NoMoreWork);
        assert(sending_gave(self.sender(), StatusEvent::NoMoreWork, sent));
    }

    fn scheduler_exited(&self) {
        let sent = send_event(&self.tx, StatusEvent::SchedulerExited);
        assert(sending_gave(self.sender(), StatusEvent::SchedulerExited, sent));
    }

    fn lagging(&self, receiver_id: ReceiverId, requested: usize, received: usize) {
        let event = StatusEvent::Lagging { receiver_id, requested, received };
        let sent = send_event(&self.tx, event);
        assert(sending_gave(self.sender(), event, sent));
    }

    fn recovered(&self, receiver_id: ReceiverId) {
        let sent = send_event(&self.tx, StatusEvent::Recovered { receiver_id });
        assert(sending_gave(self.sender(), StatusEvent::Recovered { receiver_id }, sent));
    }
}

/// A channel that events are sent into was told of an event only where the event was sent into it.
pub proof fn law_told_means_sent(sink: ChannelStatus, event: StatusEvent)
    requires
        sink.notified(event),
    ensures
        exists|sent: Result<(), StatusEvent>| sending_gave(sink.sender(), event, sent),
{
}

} // verus!
