//! What holds in every state of a feeder.

use vstd::prelude::*;
use crate::model::{DemandCommand, ReceiverState, State, WorkerState};
use crate::status::StatusEvent;
use crate::tally::{counts, map_sum, occurrences, seq_sum};
use crate::types::{CANCELLED, NO_MORE_WORK, RUNNING, SHUTTING_DOWN};

verus! {

/// The items that a command requests.
pub open spec fn requested() -> spec_fn(DemandCommand) -> int {
    |command: DemandCommand| command.count as int
}

/// The items that a command requests for the receiver `id`.
pub open spec fn requested_for(id: usize) -> spec_fn(DemandCommand) -> int {
    |command: DemandCommand|
        if command.receiver == id {
            command.count as int
        } else {
            0
        }
}

/// The items that a worker still has to deliver to the receiver `id`.
pub open spec fn owed_by_worker<T>(id: usize) -> spec_fn(WorkerState<T>) -> int {
    |worker: WorkerState<T>|
        match worker {
            WorkerState::Serving { receiver, count } => if receiver == id {
                count as int
            } else {
                0
            },
            WorkerState::Holding { receiver, count, item } => if receiver == id {
                count as int
            } else {
                0
            },
            WorkerState::Sending { receiver, count, item, fulfilled } => if receiver == id {
                count as int
            } else {
                0
            },
            _ => 0,
        }
}

/// One for a worker that is sending to the receiver `id`.
pub open spec fn sending_to<T>(id: usize) -> spec_fn(WorkerState<T>) -> int {
    |worker: WorkerState<T>|
        match worker {
            WorkerState::Sending { receiver, count, item, fulfilled } => if receiver == id {
                1int
            } else {
                0int
            },
            _ => 0int,
        }
}

/// The requested items that a worker has not accounted for yet.
pub open spec fn unsettled<T>() -> spec_fn(WorkerState<T>) -> int {
    |worker: WorkerState<T>|
        match worker {
            WorkerState::Serving { receiver, count } => count as int,
            WorkerState::Holding { receiver, count, item } => count as int,
            WorkerState::Sending { receiver, count, item, fulfilled } => count + fulfilled,
            _ => 0,
        }
}

/// The items that a worker took and has not accounted for yet.
pub open spec fn in_hand<T>() -> spec_fn(WorkerState<T>) -> int {
    |worker: WorkerState<T>|
        match worker {
            WorkerState::Holding { receiver, count, item } => 1int,
            WorkerState::Sending { receiver, count, item, fulfilled } => fulfilled + 1,
            _ => 0int,
        }
}

/// One for a worker that has not ended.
pub open spec fn running<T>() -> spec_fn(WorkerState<T>) -> int {
    |worker: WorkerState<T>|
        if worker is Exited {
            0int
        } else {
            1int
        }
}

/// The items that a receiver has buffered.
pub open spec fn buffered<T>() -> spec_fn(ReceiverState<T>) -> int {
    |receiver: ReceiverState<T>| receiver.data.len() as int
}

/// One or zero.
pub open spec fn flag(b: bool) -> int {
    if b {
        1
    } else {
        0
    }
}

impl<T> State<T> {
    /// The items that were requested for the receiver `id` and not yet delivered.
    pub open spec fn owed_to(self, id: usize) -> int {
        seq_sum(self.demand, requested_for(id)) + seq_sum(self.workers, owed_by_worker(id))
    }

    /// The number of workers that are sending to the receiver `id`.
    pub open spec fn sends_to(self, id: usize) -> int {
        seq_sum(self.workers, sending_to(id))
    }

    /// The requested items that no worker has accounted for yet.
    pub open spec fn total_demand(self) -> int {
        seq_sum(self.demand, requested()) + seq_sum(self.workers, unsettled())
    }

    /// The items that workers took and have not accounted for yet.
    pub open spec fn total_in_hand(self) -> int {
        seq_sum(self.workers, in_hand())
    }

    /// The items that receivers have buffered.
    pub open spec fn total_buffered(self) -> int {
        map_sum(self.receivers, buffered())
    }

    /// The number of workers that have not ended.
    pub open spec fn running_workers(self) -> int {
        seq_sum(self.workers, running())
    }

    /// The flags of the lifecycle agree with each other.
    pub open spec fn lifecycle_ok(self) -> bool {
        &&& self.lifecycle == RUNNING || self.lifecycle == SHUTTING_DOWN || self.lifecycle
            == CANCELLED || self.lifecycle == NO_MORE_WORK
        &&& self.terminal_open <==> (self.lifecycle == RUNNING || self.lifecycle == SHUTTING_DOWN)
        &&& self.lifecycle != RUNNING ==> !self.accepting_ingress
        &&& self.lifecycle == NO_MORE_WORK ==> self.no_more_work_emitted
        &&& self.no_more_work_emitted ==> !self.terminal_open
        &&& self.lifecycle == CANCELLED ==> self.cancelled_emitted || self.no_more_work_emitted
        &&& self.cancelled_emitted ==> self.lifecycle == CANCELLED
        &&& self.terminal_open ==> self.connected()
        &&& self.active_producer_sends > 0 ==> self.lifecycle == RUNNING || self.lifecycle
            == CANCELLED
    }

    /// No event on the feeder as a whole is told twice, nor before its time.
    pub open spec fn events_ok(self) -> bool {
        &&& occurrences(self.events, StatusEvent::NoMoreWork) == flag(self.no_more_work_emitted)
        &&& occurrences(self.events, StatusEvent::Cancelled) == flag(self.cancelled_emitted)
        &&& 0 <= occurrences(self.events, StatusEvent::GracefulShutdownStarted) <= 1
        &&& self.lifecycle == RUNNING ==> occurrences(
            self.events,
            StatusEvent::GracefulShutdownStarted,
        ) == 0
        &&& self.lifecycle == SHUTTING_DOWN || self.no_more_work_emitted ==> occurrences(
            self.events,
            StatusEvent::GracefulShutdownStarted,
        ) == 1
        &&& occurrences(self.events, StatusEvent::SchedulerExited) == flag(!self.connected())
    }

    /// The counters hold what they count.
    pub open spec fn counters_ok(self) -> bool {
        &&& self.connected() ==> counts(self.ingress_pending, self.ingress.len() as int)
        &&& self.connected() ==> counts(self.recovered_pending, self.recovered.len() as int)
        &&& self.connected() ==> counts(self.demand_pending, self.total_demand())
        &&& counts(self.active_worker_items, self.total_in_hand())
        &&& counts(self.delivered_inflight, self.total_buffered() + self.discarded)
        &&& self.terminal_open ==> self.discarded == 0
        &&& self.connected() ==> self.unheard == 0
        &&& self.active_workers == self.running_workers()
        &&& self.workers.len() <= usize::MAX
        &&& !self.connected() ==> self.ingress.len() == 0 && self.recovered.len() == 0
            && self.demand.len() == 0
    }

    /// A receiver agrees with what is owed to it and with who serves it.
    pub open spec fn receiver_ok(self, receiver: ReceiverState<T>) -> bool {
        &&& 0 < receiver.low_water < receiver.high_water
        &&& receiver.data.len() + receiver.owed <= receiver.outstanding <= receiver.high_water
        &&& self.connected() && receiver.tx_open ==> receiver.outstanding == receiver.data.len()
            + receiver.owed
        &&& receiver.tx_open <==> (!receiver.closing || receiver.owed > 0 || receiver.draining)
        &&& receiver.held()
        &&& !receiver.rx_open ==> receiver.dropped && receiver.closing && !receiver.draining
            && receiver.data.len() == 0 && receiver.active_sends == 0
        &&& receiver.draining ==> receiver.closing && receiver.dropped
        &&& self.terminal_open && receiver.closing && receiver.rx_open ==> receiver.draining
        &&& !self.terminal_open ==> receiver.closing
        &&& receiver.stats < self.consumer_stats.len()
    }

    pub open spec fn receivers_ok(self) -> bool {
        &&& self.receivers.dom().finite()
        &&& forall|id: usize| #[trigger]
            self.receivers.contains_key(id) ==> self.receiver_ok(self.receivers[id])
    }

    /// What is recorded as owed to the receiver `id`.
    pub open spec fn recorded_owed(self, id: usize) -> int {
        if self.receivers.contains_key(id) {
            self.receivers[id].owed as int
        } else {
            0
        }
    }

    /// How many workers are recorded as sending to the receiver `id`.
    pub open spec fn recorded_sends(self, id: usize) -> int {
        if self.receivers.contains_key(id) {
            self.receivers[id].active_sends as int
        } else {
            0
        }
    }

    /// What is recorded on each receiver agrees with the commands and the workers.
    pub open spec fn references_ok(self) -> bool {
        &&& forall|id: usize| #[trigger] self.owed_to(id) == self.recorded_owed(id)
        &&& forall|id: usize| #[trigger] self.sends_to(id) == self.recorded_sends(id)
    }

    /// A worker that has to deliver something has to deliver at least one item.
    pub open spec fn worker_ok(worker: WorkerState<T>) -> bool {
        match worker {
            WorkerState::Serving { receiver, count } => count > 0,
            WorkerState::Holding { receiver, count, item } => count > 0,
            WorkerState::Sending { receiver, count, item, fulfilled } => count > 0 && fulfilled
                + count <= usize::MAX,
            _ => true,
        }
    }

    pub open spec fn demand_ok(self) -> bool {
        &&& forall|i: int| 0 <= i < self.demand.len() ==> (#[trigger] self.demand[i]).count > 0
        &&& forall|i: int|
            0 <= i < self.workers.len() ==> State::worker_ok(#[trigger] self.workers[i])
    }

    /// What holds in every state of a feeder.
    pub open spec fn inv(self) -> bool {
        &&& self.lifecycle_ok()
        &&& self.events_ok()
        &&& self.counters_ok()
        &&& self.receivers_ok()
        &&& self.references_ok()
        &&& self.demand_ok()
    }

    /// Every counter of items can hold what it counts.
    pub open spec fn items_fit(self) -> bool {
        &&& self.ingress.len() <= usize::MAX
        &&& self.recovered.len() <= usize::MAX
        &&& self.total_in_hand() <= usize::MAX
        &&& self.total_buffered() + self.discarded <= usize::MAX
    }

    /// Every counter can hold what it counts.
    pub open spec fn fits(self) -> bool {
        self.items_fit() && self.total_demand() <= usize::MAX
    }
}

} // verus!
